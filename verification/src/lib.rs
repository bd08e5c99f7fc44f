//! A render-agnostic engine for an interactive, sortable, searchable table
//! with multi-cell drag selection.
//!
//! The engine owns the row store (the authoritative collection of rows), the
//! display projection (which rows are visible and in what order), the
//! selection state (which cells are selected), and the mutation batcher that
//! amortizes re-sorting over bulk inserts.  Rendering and input capture are
//! left to the caller, who drives the engine through the methods on
//! [`SelectableTable`].

mod auto_reload;
mod fuzzy_matcher;
mod laws;
mod row_modification;
mod row_selection;
mod sort;

pub use auto_reload::AutoReload;
pub use fuzzy_matcher::masked;
pub use laws::{lemma_display_index_consistent, lemma_displayed_sorted, lemma_active_sets_exact};
pub use sort::{le_by, entry_le, is_sorted_by, insert_sorted, sort_spec, lemma_sort_spec_props};

use vstd::prelude::*;

verus! {

use core::cmp::Ordering;

/// The direction a column sorts in.
#[derive(Clone, Copy, Debug, Default, PartialEq, Eq, Structural)]
pub enum SortOrder {
    /// Smallest first, as the column's comparator orders rows.
    #[default]
    Ascending,
    /// Largest first: the comparator's order, reversed.
    Descending,
}

/// How rows are ordered by one column.
///
/// Implemented by the caller's column-identity type.  The comparator is
/// always stated for ascending order; descending display order is handled by
/// the table itself.  `le_spec` is the mathematical relation the executable
/// comparator must follow, and the two lemmas oblige it to be a total
/// preorder, which is what sorting requires of it.
pub trait ColumnOrdering<Row>: Sized {
    /// The "row_1 sorts no later than row_2" relation for this column.
    spec fn le_spec(self, row_1: Row, row_2: Row) -> bool;

    /// Any two rows are comparable under this column.
    proof fn le_total(self, row_1: Row, row_2: Row)
        ensures
            self.le_spec(row_1, row_2) || self.le_spec(row_2, row_1),
    ;

    /// The relation is transitive.
    proof fn le_transitive(self, row_1: Row, row_2: Row, row_3: Row)
        requires
            self.le_spec(row_1, row_2),
            self.le_spec(row_2, row_3),
        ensures
            self.le_spec(row_1, row_3),
    ;

    /// Compare two rows under this column, consistently with `le_spec`.
    fn order_by(&self, row_1: &Row, row_2: &Row) -> (r: Ordering)
        ensures
            (r == Ordering::Less || r == Ordering::Equal) <==> self.le_spec(*row_1, *row_2),
            (r == Ordering::Greater || r == Ordering::Equal) <==> self.le_spec(*row_2, *row_1),
    ;
}

/// A row payload the table can copy from its store into the display rows.
///
/// The copy must be the same value: the display rows are snapshots of the
/// store, and the contracts relate the two.
pub trait RowData: Sized {
    /// Produce a copy of this payload, equal to it.
    fn clone_row(&self) -> (r: Self)
        ensures
            r == *self,
    ;
}

/// Per-column operations the caller supplies besides ordering: the column's
/// position in the declared left-to-right layout, and the text shown for a
/// row in this column.
pub trait ColumnOperations<Row>: Sized {
    /// The declared position of this column, as the contracts speak of it.
    spec fn index_spec(self) -> usize;

    /// The declared position of this column.  The table requires the columns
    /// handed to [`SelectableTable::new`] to carry their own positions.
    fn column_index(&self) -> (i: usize)
        ensures
            i == self.index_spec(),
    ;

    /// The text this column shows for `row`, also used for clipboard copy
    /// and for search.
    fn column_text(&self, row: &Row) -> String;
}

/// A row as the table holds it: the caller's payload, the identity the table
/// assigned to it, and one flag per declared column saying whether that cell
/// is currently selected.
pub struct SelectableRow<Row> {
    pub row_data: Row,
    pub id: i64,
    pub selected_columns: Vec<bool>,
}

impl<Row> SelectableRow<Row> {
    /// Whether the cell of this row in the column with the given declared
    /// index is selected.
    pub fn column_selected(&self, column_index: usize) -> (r: bool)
        ensures
            r == (column_index < self.selected_columns@.len()
                && self.selected_columns@[column_index as int]),
    {
        column_index < self.selected_columns.len() && self.selected_columns[column_index]
    }
}

/// Whether some displayed cell of the row with identity `id` is selected.
pub open spec fn row_has_selection<Row>(disp: Seq<SelectableRow<Row>>, id: i64) -> bool {
    exists|p: int, c: int|
        0 <= p < disp.len() && disp[p].id == id && 0 <= c < disp[p].selected_columns@.len()
            && disp[p].selected_columns@[c]
}

/// Whether some displayed cell in the column with declared index `c` is
/// selected.
pub open spec fn column_has_selection<Row>(disp: Seq<SelectableRow<Row>>, c: int) -> bool {
    exists|p: int|
        0 <= p < disp.len() && 0 <= c < disp[p].selected_columns@.len()
            && disp[p].selected_columns@[c]
}

/// A store or display row reduced to what identifies it: its id and its
/// payload.  The selection flags are display state, not row state.
pub open spec fn entry_of<Row>(r: SelectableRow<Row>) -> (i64, Row) {
    (r.id, r.row_data)
}

/// The identities and payloads of a sequence of rows.
pub open spec fn entries_of<Row>(s: Seq<SelectableRow<Row>>) -> Seq<(i64, Row)> {
    s.map_values(|r: SelectableRow<Row>| entry_of(r))
}

/// The engine: owns the row store, the display projection, the selection
/// state, the sort state and the mutation batcher.
///
/// `Row` is the caller's row payload, `F` the caller's column-identity type
/// (carrying ordering, layout position and text extraction), and `Conf` an
/// arbitrary configuration value the caller can stash in the table.
pub struct SelectableTable<Row, F, Conf> {
    /// Every column, in the caller's declared left-to-right order.
    all_columns: Vec<F>,
    /// All rows, authoritative: the row with id `i` sits at position `i`.
    rows: Vec<SelectableRow<Row>>,
    /// The rows currently shown, in display order, with their selection
    /// flags.  Rebuilt from the store on every re-projection.
    formatted_rows: Vec<SelectableRow<Row>>,
    /// The column the display order sorts by.
    sorted_by: F,
    /// The direction the display order sorts in.
    sort_order: SortOrder,
    /// Where the live drag began: row id and declared column index.
    drag_started_on: Option<(i64, usize)>,
    /// One flag per declared column: whether any displayed cell of that
    /// column is selected.
    active_columns: Vec<bool>,
    /// The ids of the displayed rows with at least one selected cell.
    active_rows: Vec<i64>,
    /// The row the pointer last dragged over.
    last_active_row: Option<i64>,
    /// The column the pointer last dragged over, as a declared index.
    last_active_column: Option<usize>,
    /// Whether the live drag has left its starting cell at least once.
    beyond_drag_point: bool,
    /// Maps a row id to its position in `formatted_rows`, or `None` for a
    /// row that is not displayed.  Entry `i` describes the row with id `i`.
    indexed_ids: Vec<Option<usize>>,
    /// The id the next inserted row will get.
    last_id_used: i64,
    /// Counts mutations and decides when to re-project.
    auto_reload: AutoReload,
    /// Whether any selection action takes whole rows instead of cells.
    select_full_row: bool,
    /// Whether the caller wants a horizontal scroll bar drawn.
    horizontal_scroll: bool,
    /// Arbitrary caller configuration, available while building rows.
    pub config: Conf,
    /// Whether the caller wants a row-number column drawn.
    add_serial_column: bool,
    /// Whether a ctrl-A from the renderer should select every row.
    capture_ctrl_a: bool,
    /// The fuzzy matcher that scores rows during a search.
    matcher: nucleo_matcher::Matcher,
}

impl<Row, F, Conf> SelectableTable<Row, F, Conf> where
    Row: RowData,
    F: Copy + ColumnOperations<Row> + ColumnOrdering<Row>,
    Conf: Default,
 {
    /// The declared columns, in order.
    pub closed spec fn columns_spec(&self) -> Seq<F> {
        self.all_columns@
    }

    /// How many columns the table was declared with.
    pub open spec fn num_columns(&self) -> nat {
        self.columns_spec().len()
    }

    /// The store: every row, the row with id `i` at position `i`.
    pub closed spec fn store_rows(&self) -> Seq<SelectableRow<Row>> {
        self.rows@
    }

    /// The rows currently displayed, in display order.
    pub closed spec fn displayed(&self) -> Seq<SelectableRow<Row>> {
        self.formatted_rows@
    }

    /// The display index: position `id` holds the display position of the
    /// row with that id, or `None` when it is not displayed.
    pub closed spec fn display_index(&self) -> Seq<Option<usize>> {
        self.indexed_ids@
    }

    /// The column the display order sorts by.
    pub closed spec fn sort_column(&self) -> F {
        self.sorted_by
    }

    /// The direction the display order sorts in.
    pub closed spec fn sort_direction(&self) -> SortOrder {
        self.sort_order
    }

    /// The ids of displayed rows with at least one selected cell.
    pub closed spec fn active_row_ids(&self) -> Seq<i64> {
        self.active_rows@
    }

    /// One flag per column: whether any displayed cell of it is selected.
    pub closed spec fn active_column_flags(&self) -> Seq<bool> {
        self.active_columns@
    }

    /// Where the live drag began: row id and declared column index.
    pub closed spec fn drag_origin(&self) -> Option<(i64, usize)> {
        self.drag_started_on
    }

    /// Whether the live drag has left its starting cell at least once.
    pub closed spec fn moved_beyond_origin(&self) -> bool {
        self.beyond_drag_point
    }

    /// The row the pointer last dragged over.
    pub closed spec fn last_pointer_row(&self) -> Option<i64> {
        self.last_active_row
    }

    /// The column the pointer last dragged over, as a declared index.
    pub closed spec fn last_pointer_column(&self) -> Option<usize> {
        self.last_active_column
    }

    /// Whether selection takes whole rows instead of cells.
    pub closed spec fn full_row_mode(&self) -> bool {
        self.select_full_row
    }

    /// The auto-reload threshold, or `None` when disabled.
    pub closed spec fn reload_threshold(&self) -> Option<u32> {
        self.auto_reload.threshold_spec()
    }

    /// Mutations counted since the last triggered re-projection.
    pub closed spec fn reload_counter(&self) -> u32 {
        self.auto_reload.counter_spec()
    }

    /// Whether a row-number column was requested.
    pub closed spec fn serial_column_enabled(&self) -> bool {
        self.add_serial_column
    }

    /// Whether a horizontal scroll bar was requested.
    pub closed spec fn horizontal_scroll_enabled(&self) -> bool {
        self.horizontal_scroll
    }

    /// The caller configuration, as the contracts speak of it.
    pub closed spec fn config_spec(&self) -> Conf {
        self.config
    }

    /// The fuzzy matcher, as the contracts speak of it.
    pub closed spec fn matcher_spec(&self) -> nucleo_matcher::Matcher {
        self.matcher
    }

    /// Whether a ctrl-A from the renderer selects every row.
    pub closed spec fn ctrl_a_capture_enabled(&self) -> bool {
        self.capture_ctrl_a
    }

    /// Whether the displayed cell at display position `p`, column `c`, is
    /// selected.
    pub open spec fn cell_selected(&self, p: int, c: int) -> bool {
        0 <= p < self.displayed().len() && 0 <= c < self.displayed()[p].selected_columns@.len()
            && self.displayed()[p].selected_columns@[c]
    }

    /// Everything the table guarantees about its own shape: the columns
    /// carry their declared positions, the store is keyed by id, the display
    /// index and the display sequence agree, and every selection flag is
    /// sized to the column count.
    pub closed spec fn inv_core(&self) -> bool {
        &&& 0 < self.all_columns@.len()
        &&& forall|i: int|
            0 <= i < self.all_columns@.len() ==> (#[trigger] self.all_columns@[i]).index_spec()
                == i
        &&& self.sorted_by.index_spec() < self.all_columns@.len()
        &&& self.rows@.len() <= i64::MAX
        &&& forall|i: int| 0 <= i < self.rows@.len() ==> (#[trigger] self.rows@[i]).id == i
        &&& forall|i: int|
            0 <= i < self.rows@.len() ==> (#[trigger] self.rows@[i]).selected_columns@.len() == 0
        &&& self.last_id_used == self.rows@.len()
        &&& self.indexed_ids@.len() == self.rows@.len()
        &&& forall|p: int|
            0 <= p < self.formatted_rows@.len() ==> {
                let r = #[trigger] self.formatted_rows@[p];
                &&& 0 <= r.id < self.indexed_ids@.len()
                &&& self.indexed_ids@[r.id as int] == Some(p as usize)
                &&& r.selected_columns@.len() == self.all_columns@.len()
            }
        &&& forall|id: int|
            0 <= id < self.indexed_ids@.len() && (#[trigger] self.indexed_ids@[id]).is_some()
                ==> {
                let p = self.indexed_ids@[id].unwrap() as int;
                &&& p < self.formatted_rows@.len()
                &&& self.formatted_rows@[p].id == id
            }
        &&& self.active_columns@.len() == self.all_columns@.len()
        &&& match self.drag_started_on {
            Some(d) => d.1 < self.all_columns@.len(),
            None => true,
        }
        &&& match self.last_active_column {
            Some(c) => c < self.all_columns@.len(),
            None => true,
        }
    }

    /// The active sets are exactly the projections of the per-cell selection
    /// onto rows and columns: no entry without a selected cell, no selected
    /// cell without its entry.
    pub closed spec fn inv_selection(&self) -> bool {
        &&& forall|c: int|
            0 <= c < self.active_columns@.len() ==> ((#[trigger] self.active_columns@[c])
                <==> column_has_selection(self.formatted_rows@, c))
        &&& forall|id: i64|
            #![trigger self.active_rows@.contains(id)]
            #![trigger row_has_selection(self.formatted_rows@, id)]
            self.active_rows@.contains(id) <==> row_has_selection(self.formatted_rows@, id)
        &&& self.active_rows@.no_duplicates()
    }

    /// The table's full invariant: shape plus selection bookkeeping.
    pub closed spec fn inv(&self) -> bool {
        &&& self.inv_core()
        &&& self.inv_selection()
    }
}

/// Two tables hold the same displayed rows and the same display index.
pub open spec fn same_display<Row, F, Conf>(
    a: &SelectableTable<Row, F, Conf>,
    b: &SelectableTable<Row, F, Conf>,
) -> bool where Row: RowData, F: Copy + ColumnOperations<Row> + ColumnOrdering<Row>, Conf: Default {
    &&& a.displayed() == b.displayed()
    &&& a.display_index() == b.display_index()
}

/// Two tables hold the same store.
pub open spec fn same_store<Row, F, Conf>(
    a: &SelectableTable<Row, F, Conf>,
    b: &SelectableTable<Row, F, Conf>,
) -> bool where Row: RowData, F: Copy + ColumnOperations<Row> + ColumnOrdering<Row>, Conf: Default {
    a.store_rows() == b.store_rows()
}

/// Two tables sort by the same column in the same direction.
pub open spec fn same_sort<Row, F, Conf>(
    a: &SelectableTable<Row, F, Conf>,
    b: &SelectableTable<Row, F, Conf>,
) -> bool where Row: RowData, F: Copy + ColumnOperations<Row> + ColumnOrdering<Row>, Conf: Default {
    &&& a.sort_column() == b.sort_column()
    &&& a.sort_direction() == b.sort_direction()
}

/// Two tables agree on the active rows and active columns.
pub open spec fn same_active_sets<Row, F, Conf>(
    a: &SelectableTable<Row, F, Conf>,
    b: &SelectableTable<Row, F, Conf>,
) -> bool where Row: RowData, F: Copy + ColumnOperations<Row> + ColumnOrdering<Row>, Conf: Default {
    &&& a.active_row_ids() == b.active_row_ids()
    &&& a.active_column_flags() == b.active_column_flags()
}

/// Two tables agree on the whole drag state.
pub open spec fn same_drag<Row, F, Conf>(
    a: &SelectableTable<Row, F, Conf>,
    b: &SelectableTable<Row, F, Conf>,
) -> bool where Row: RowData, F: Copy + ColumnOperations<Row> + ColumnOrdering<Row>, Conf: Default {
    &&& a.drag_origin() == b.drag_origin()
    &&& a.moved_beyond_origin() == b.moved_beyond_origin()
    &&& a.last_pointer_row() == b.last_pointer_row()
    &&& a.last_pointer_column() == b.last_pointer_column()
}

/// Two tables agree on the declared columns and the option flags.
pub open spec fn same_options<Row, F, Conf>(
    a: &SelectableTable<Row, F, Conf>,
    b: &SelectableTable<Row, F, Conf>,
) -> bool where Row: RowData, F: Copy + ColumnOperations<Row> + ColumnOrdering<Row>, Conf: Default {
    &&& a.columns_spec() == b.columns_spec()
    &&& a.full_row_mode() == b.full_row_mode()
    &&& a.serial_column_enabled() == b.serial_column_enabled()
    &&& a.horizontal_scroll_enabled() == b.horizontal_scroll_enabled()
}

/// Two tables agree on the mutation batcher's state.
pub open spec fn same_batcher<Row, F, Conf>(
    a: &SelectableTable<Row, F, Conf>,
    b: &SelectableTable<Row, F, Conf>,
) -> bool where Row: RowData, F: Copy + ColumnOperations<Row> + ColumnOrdering<Row>, Conf: Default {
    &&& a.reload_threshold() == b.reload_threshold()
    &&& a.reload_counter() == b.reload_counter()
}

/// A fresh vector holding the same flags as `v`.
pub(crate) fn copy_bools(v: &Vec<bool>) -> (r: Vec<bool>)
    ensures
        r@ == v@,
{
    let mut r: Vec<bool> = Vec::new();
    let mut i: usize = 0;
    while i < v.len()
        invariant
            i <= v@.len(),
            r@ =~= v@.take(i as int),
        decreases v@.len() - i,
    {
        r.push(v[i]);
        i = i + 1;
    }
    proof {
        assert(v@.take(v@.len() as int) =~= v@);
    }
    r
}

/// A vector of `n` copies of `b`, used for fresh selection flags.
pub(crate) fn bools(n: usize, b: bool) -> (v: Vec<bool>)
    ensures
        v@.len() == n,
        forall|i: int| 0 <= i < n ==> v@[i] == b,
{
    let mut v: Vec<bool> = Vec::new();
    let mut i: usize = 0;
    while i < n
        invariant
            i <= n,
            v@.len() == i,
            forall|k: int| 0 <= k < i ==> v@[k] == b,
        decreases n - i,
    {
        v.push(b);
        i = i + 1;
    }
    v
}

impl<Row, F, Conf> SelectableTable<Row, F, Conf> where
    Row: RowData,
    F: Copy + ColumnOperations<Row> + ColumnOrdering<Row>,
    Conf: Default,
 {
    /// A new, empty table over the given columns.  The columns must be
    /// passed in their declared order, each carrying its own position; the
    /// first column is the initial sort key.
    pub fn new(columns: Vec<F>) -> (r: Self)
        requires
            0 < columns@.len(),
            forall|i: int| 0 <= i < columns@.len() ==> (#[trigger] columns@[i]).index_spec() == i,
        ensures
            r.inv(),
            r.columns_spec() == columns@,
            r.store_rows().len() == 0,
            r.displayed().len() == 0,
            r.display_index().len() == 0,
            r.sort_column() == columns@[0],
            r.sort_direction() == SortOrder::Ascending,
            r.active_row_ids().len() == 0,
            r.active_column_flags().len() == columns@.len(),
            forall|c: int| 0 <= c < columns@.len() ==> !r.active_column_flags()[c],
            r.drag_origin() is None,
            !r.moved_beyond_origin(),
            !r.full_row_mode(),
            r.reload_threshold() is None,
            r.reload_counter() == 0,
            !r.serial_column_enabled(),
            !r.horizontal_scroll_enabled(),
    {
        let ncols = columns.len();
        let sorted_by = columns[0];
        let r = Self {
            all_columns: columns,
            rows: Vec::new(),
            formatted_rows: Vec::new(),
            sorted_by,
            sort_order: SortOrder::Ascending,
            drag_started_on: None,
            active_columns: bools(ncols, false),
            active_rows: Vec::new(),
            last_active_row: None,
            last_active_column: None,
            beyond_drag_point: false,
            indexed_ids: Vec::new(),
            last_id_used: 0,
            auto_reload: AutoReload::new(),
            select_full_row: false,
            horizontal_scroll: false,
            config: Conf::default(),
            add_serial_column: false,
            capture_ctrl_a: true,
            matcher: fuzzy_matcher::default_matcher(),
        };
        r
    }

    /// Replace the caller configuration.
    pub fn set_config(&mut self, conf: Conf)
        ensures
            final(self).config_spec() == conf,
            same_display(old(self), final(self)),
            same_store(old(self), final(self)),
            same_sort(old(self), final(self)),
            same_active_sets(old(self), final(self)),
            same_drag(old(self), final(self)),
            same_options(old(self), final(self)),
            same_batcher(old(self), final(self)),
            old(self).inv() ==> final(self).inv(),
    {
        self.config = conf;
    }

    /// Replace the caller configuration, builder style.
    pub fn config(self, conf: Conf) -> (r: Self)
        ensures
            r.config_spec() == conf,
            same_display(&self, &r),
            same_store(&self, &r),
            same_sort(&self, &r),
            same_active_sets(&self, &r),
            same_drag(&self, &r),
            same_options(&self, &r),
            same_batcher(&self, &r),
            self.inv() ==> r.inv(),
    {
        let mut s = self;
        s.config = conf;
        s
    }

    /// Ask for a row-number column, builder style.
    pub fn serial_column(self) -> (r: Self)
        ensures
            r.serial_column_enabled(),
            same_display(&self, &r),
            same_store(&self, &r),
            same_sort(&self, &r),
            same_active_sets(&self, &r),
            same_drag(&self, &r),
            same_batcher(&self, &r),
            r.columns_spec() == self.columns_spec(),
            r.full_row_mode() == self.full_row_mode(),
            r.horizontal_scroll_enabled() == self.horizontal_scroll_enabled(),
            r.config_spec() == self.config_spec(),
            self.inv() ==> r.inv(),
    {
        let mut s = self;
        s.add_serial_column = true;
        s
    }

    /// Ask for a horizontal scroll bar, builder style.
    pub fn horizontal_scroll(self) -> (r: Self)
        ensures
            r.horizontal_scroll_enabled(),
            same_display(&self, &r),
            same_store(&self, &r),
            same_sort(&self, &r),
            same_active_sets(&self, &r),
            same_drag(&self, &r),
            same_batcher(&self, &r),
            r.columns_spec() == self.columns_spec(),
            r.full_row_mode() == self.full_row_mode(),
            r.serial_column_enabled() == self.serial_column_enabled(),
            r.config_spec() == self.config_spec(),
            self.inv() ==> r.inv(),
    {
        let mut s = self;
        s.horizontal_scroll = true;
        s
    }

    /// Enable auto reload with the given threshold, builder style.
    pub fn auto_reload(self, count: u32) -> (r: Self)
        ensures
            r.reload_threshold() == Some(count),
            r.reload_counter() == self.reload_counter(),
            same_display(&self, &r),
            same_store(&self, &r),
            same_sort(&self, &r),
            same_active_sets(&self, &r),
            same_drag(&self, &r),
            same_options(&self, &r),
            r.config_spec() == self.config_spec(),
            self.inv() ==> r.inv(),
    {
        let mut s = self;
        s.auto_reload.set_threshold(Some(count));
        s
    }

    /// Enable or disable auto reload.
    pub fn set_auto_reload(&mut self, count: Option<u32>)
        ensures
            final(self).reload_threshold() == count,
            final(self).reload_counter() == old(self).reload_counter(),
            same_display(old(self), final(self)),
            same_store(old(self), final(self)),
            same_sort(old(self), final(self)),
            same_active_sets(old(self), final(self)),
            same_drag(old(self), final(self)),
            same_options(old(self), final(self)),
            final(self).config_spec() == old(self).config_spec(),
            old(self).inv() ==> final(self).inv(),
    {
        self.auto_reload.set_threshold(count);
    }

    /// Choose whether selection takes whole rows instead of cells.
    pub fn set_select_full_row(&mut self, select_full_row: bool)
        ensures
            final(self).full_row_mode() == select_full_row,
            same_display(old(self), final(self)),
            same_store(old(self), final(self)),
            same_sort(old(self), final(self)),
            same_active_sets(old(self), final(self)),
            same_drag(old(self), final(self)),
            same_batcher(old(self), final(self)),
            final(self).columns_spec() == old(self).columns_spec(),
            final(self).serial_column_enabled() == old(self).serial_column_enabled(),
            final(self).horizontal_scroll_enabled() == old(self).horizontal_scroll_enabled(),
            final(self).config_spec() == old(self).config_spec(),
            old(self).inv() ==> final(self).inv(),
    {
        self.select_full_row = select_full_row;
    }

    /// How many rows are currently displayed.
    pub fn total_displayed_rows(&self) -> (n: usize)
        ensures
            n == self.displayed().len(),
    {
        self.formatted_rows.len()
    }

    /// How many rows the store holds, displayed or not.
    pub fn total_rows(&self) -> (n: usize)
        ensures
            n == self.store_rows().len(),
    {
        self.rows.len()
    }

    /// The rows currently displayed, in display order.
    pub fn get_displayed_rows(&self) -> (r: &Vec<SelectableRow<Row>>)
        ensures
            r@ == self.displayed(),
    {
        &self.formatted_rows
    }

    /// Every row in the store: the row with id `i` is at position `i`.
    pub fn get_all_rows(&self) -> (r: &Vec<SelectableRow<Row>>)
        ensures
            r@ == self.store_rows(),
    {
        &self.rows
    }

    /// The column the table currently sorts by.
    pub fn current_sorted_by(&self) -> (r: F)
        ensures
            r == self.sort_column(),
    {
        self.sorted_by
    }

    /// The direction the table currently sorts in.
    pub fn current_sort_order(&self) -> (r: SortOrder)
        ensures
            r == self.sort_direction(),
    {
        self.sort_order
    }

    /// Whether a drag is live.
    pub fn drag_active(&self) -> (r: bool)
        ensures
            r == (self.drag_origin() is Some),
    {
        self.drag_started_on.is_some()
    }

    /// Whether a row-number column was requested.
    pub fn has_serial_column(&self) -> (r: bool)
        ensures
            r == self.serial_column_enabled(),
    {
        self.add_serial_column
    }

    /// Whether a horizontal scroll bar was requested.
    pub fn has_horizontal_scroll(&self) -> (r: bool)
        ensures
            r == self.horizontal_scroll_enabled(),
    {
        self.horizontal_scroll
    }

    /// Stop a ctrl-A from the renderer from selecting every row, builder
    /// style.
    pub fn no_ctrl_a_capture(self) -> (r: Self)
        ensures
            !r.ctrl_a_capture_enabled(),
            same_display(&self, &r),
            same_store(&self, &r),
            same_sort(&self, &r),
            same_active_sets(&self, &r),
            same_drag(&self, &r),
            same_options(&self, &r),
            same_batcher(&self, &r),
            r.config_spec() == self.config_spec(),
            self.inv() ==> r.inv(),
    {
        let mut s = self;
        s.capture_ctrl_a = false;
        s
    }

    /// Whether a ctrl-A from the renderer selects every row.
    pub fn has_ctrl_a_capture(&self) -> (r: bool)
        ensures
            r == self.ctrl_a_capture_enabled(),
    {
        self.capture_ctrl_a
    }

    /// The first declared column.
    pub fn first_column(&self) -> (r: F)
        requires
            self.inv(),
        ensures
            r == self.columns_spec()[0],
    {
        self.all_columns[0]
    }

    /// The last declared column.
    pub fn last_column(&self) -> (r: F)
        requires
            self.inv(),
        ensures
            r == self.columns_spec().last(),
    {
        self.all_columns[self.all_columns.len() - 1]
    }

    /// The declared position of a column.  The column must be one of the
    /// declared columns; anything else is a caller error.
    pub fn column_to_num(&self, column: &F) -> (r: usize)
        requires
            self.inv(),
            column.index_spec() < self.num_columns(),
        ensures
            r == column.index_spec(),
            r < self.num_columns(),
    {
        column.column_index()
    }

    /// The column after the given one in declared order, wrapping at the
    /// end.
    pub fn next_column(&self, column: &F) -> (r: F)
        requires
            self.inv(),
            column.index_spec() < self.num_columns(),
        ensures
            r == self.columns_spec()[if column.index_spec() + 1 == self.num_columns() {
                0int
            } else {
                column.index_spec() + 1
            }],
    {
        let i = self.column_to_num(column);
        if i == self.all_columns.len() - 1 {
            self.all_columns[0]
        } else {
            self.all_columns[i + 1]
        }
    }

    /// The column before the given one in declared order, wrapping at the
    /// start.
    pub fn previous_column(&self, column: &F) -> (r: F)
        requires
            self.inv(),
            column.index_spec() < self.num_columns(),
        ensures
            r == self.columns_spec()[if column.index_spec() == 0 {
                self.num_columns() - 1
            } else {
                column.index_spec() - 1
            }],
    {
        let i = self.column_to_num(column);
        if i == 0 {
            self.all_columns[self.all_columns.len() - 1]
        } else {
            self.all_columns[i - 1]
        }
    }
}

} // verus!
