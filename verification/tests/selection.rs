use selectable_table::ColumnOperations;
use selectable_table::ColumnOrdering;
use selectable_table::RowData;
use selectable_table::SelectableTable;
use std::cmp::Ordering;

#[derive(Clone, Copy, Debug, PartialEq, Eq)]
struct Item {
    key: u64,
}

impl RowData for Item {
    fn clone_row(&self) -> Item {
        *self
    }
}

#[derive(Clone, Copy, Debug, PartialEq, Eq)]
enum Col {
    Name,
    Value,
}

impl ColumnOrdering<Item> for Col {
    // The spec-level members are ghost: nothing ever calls these bodies.
    fn le_spec(self, _row_1: Item, _row_2: Item) -> bool {
        false
    }
    fn le_total(self, _row_1: Item, _row_2: Item) {}
    fn le_transitive(self, _row_1: Item, _row_2: Item, _row_3: Item) {}

    fn order_by(&self, row_1: &Item, row_2: &Item) -> Ordering {
        row_1.key.cmp(&row_2.key)
    }
}

impl ColumnOperations<Item> for Col {
    fn index_spec(self) -> usize {
        0
    }
    fn column_index(&self) -> usize {
        match self {
            Col::Name => 0,
            Col::Value => 1,
        }
    }
    fn column_text(&self, row: &Item) -> String {
        match self {
            Col::Name => format!("n{}", row.key),
            Col::Value => format!("v{}", row.key),
        }
    }
}

/// Five rows, keys 0..5, displayed in key order so that display position
/// equals key.
fn five_rows() -> SelectableTable<Item, Col, ()> {
    let mut t = SelectableTable::new(vec![Col::Name, Col::Value]);
    for k in 0..5u64 {
        t.add_modify_row(Some(Item { key: k }));
    }
    t.recreate_rows();
    t
}

fn selection_grid(t: &SelectableTable<Item, Col, ()>) -> Vec<(bool, bool)> {
    t.get_displayed_rows().iter().map(|r| (r.column_selected(0), r.column_selected(1))).collect()
}

#[test]
fn rectangle_drag_selects_exactly_the_span() {
    let mut t = five_rows();
    t.start_drag(1, &Col::Value, false);
    t.select_dragged_row_cell(3, &Col::Value, false);
    assert_eq!(
        selection_grid(&t),
        vec![(false, false), (false, true), (false, true), (false, true), (false, false)]
    );
    // Dragging back up shrinks the rectangle: it replaces, never
    // accumulates.
    t.select_dragged_row_cell(2, &Col::Name, false);
    assert_eq!(
        selection_grid(&t),
        vec![(false, false), (true, true), (true, true), (false, false), (false, false)]
    );
    t.end_drag();
}

#[test]
fn drag_on_origin_cell_alone_selects_nothing() {
    let mut t = five_rows();
    t.start_drag(2, &Col::Name, false);
    // The pointer has not left the origin cell: a click, not a drag.
    t.select_dragged_row_cell(2, &Col::Name, false);
    assert_eq!(
        selection_grid(&t),
        vec![(false, false), (false, false), (false, false), (false, false), (false, false)]
    );
}

#[test]
fn additive_drag_keeps_previous_selection() {
    let mut t = five_rows();
    t.select_single_row_cell(0, &Col::Name);
    t.start_drag(3, &Col::Value, true);
    t.select_dragged_row_cell(4, &Col::Value, true);
    assert_eq!(
        selection_grid(&t),
        vec![(true, false), (false, false), (false, false), (false, true), (false, true)]
    );
}

#[test]
fn plain_drag_start_clears_previous_selection() {
    let mut t = five_rows();
    t.select_single_row_cell(0, &Col::Name);
    t.start_drag(3, &Col::Value, false);
    assert_eq!(
        selection_grid(&t),
        vec![(false, false), (false, false), (false, false), (false, false), (false, false)]
    );
}

#[test]
fn select_all_and_unselect_all_cover_every_cell() {
    let mut t = five_rows();
    t.select_all();
    assert!(t.get_displayed_rows().iter().all(|r| r.column_selected(0) && r.column_selected(1)));
    t.unselect_all();
    assert!(t.get_displayed_rows().iter().all(|r| !r.column_selected(0) && !r.column_selected(1)));
}

#[test]
fn mark_row_as_selected_takes_the_whole_row_or_one_cell() {
    let mut t = five_rows();
    t.mark_row_as_selected(2, None);
    t.mark_row_as_selected(4, Some(&Col::Value));
    assert_eq!(
        selection_grid(&t),
        vec![(false, false), (false, false), (true, true), (false, false), (false, true)]
    );
    // A stale id changes nothing.
    t.mark_row_as_selected(99, None);
    assert_eq!(
        selection_grid(&t),
        vec![(false, false), (false, false), (true, true), (false, false), (false, true)]
    );
}

#[test]
fn full_row_mode_widens_every_selection() {
    let mut t = five_rows();
    t.set_select_full_row(true);
    t.select_single_row_cell(1, &Col::Name);
    assert_eq!(
        selection_grid(&t),
        vec![(false, false), (true, true), (false, false), (false, false), (false, false)]
    );
    t.start_drag(2, &Col::Value, true);
    t.select_dragged_row_cell(3, &Col::Value, true);
    assert_eq!(
        selection_grid(&t),
        vec![(false, false), (true, true), (true, true), (true, true), (false, false)]
    );
}

#[test]
fn rebuild_preserving_selection_reattaches_active_columns() {
    let mut t = five_rows();
    t.select_single_row_cell(1, &Col::Name);
    t.select_single_row_cell(3, &Col::Value);
    t.recreate_rows_no_unselect();
    // The rows with a selection stay selected; each gets the full set of
    // active columns, the documented coarsening.
    assert_eq!(
        selection_grid(&t),
        vec![(false, false), (true, true), (false, false), (true, true), (false, false)]
    );
    // A plain rebuild drops the selection entirely.
    t.recreate_rows();
    assert!(t.get_displayed_rows().iter().all(|r| !r.column_selected(0) && !r.column_selected(1)));
}

#[test]
fn drag_survives_reprojection_by_row_identity() {
    let mut t = five_rows();
    t.start_drag(4, &Col::Name, false);
    assert!(t.drag_active());
    t.end_drag();
    assert!(!t.drag_active());
}
