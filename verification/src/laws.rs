//! The table's standing guarantees, stated on their own: display/index
//! consistency, sortedness of any re-projected display, and the active
//! sets as exact projections of the cell selection.

use vstd::prelude::*;

verus! {

use crate::ColumnOperations;
use crate::ColumnOrdering;
use crate::RowData;
use crate::SelectableTable;
use crate::column_has_selection;
use crate::entries_of;
use crate::row_has_selection;
use crate::sort::le_by;
use crate::sort::lemma_sort_spec_props;
use crate::sort::sort_spec;

/// Display/index consistency: the display index is exactly the inverse of
/// the display sequence.  The row shown at position `p` is indexed at `p`,
/// every indexed id is shown at the indexed position, and the index has one
/// entry per stored row.
pub proof fn lemma_display_index_consistent<Row, F, Conf>(t: &SelectableTable<Row, F, Conf>) where
    Row: RowData,
    F: Copy + ColumnOperations<Row> + ColumnOrdering<Row>,
    Conf: Default,

    requires
        t.inv(),
    ensures
        t.display_index().len() == t.store_rows().len(),
        forall|p: int|
            0 <= p < t.displayed().len() ==> {
                let id = (#[trigger] t.displayed()[p]).id;
                &&& 0 <= id < t.display_index().len()
                &&& t.display_index()[id as int] == Some(p as usize)
            },
        forall|id: int|
            0 <= id < t.display_index().len() && (#[trigger] t.display_index()[id]) is Some ==> {
                let p = t.display_index()[id].unwrap() as int;
                &&& 0 <= p < t.displayed().len()
                &&& t.displayed()[p].id == id
            },
{
}

/// Sort correctness: whenever the display sequence is the sorted projection
/// of some row set — as every re-projection promises — each displayed row
/// sorts no later than every row after it, under the current column and
/// direction.
pub proof fn lemma_displayed_sorted<Row, F, Conf>(
    t: &SelectableTable<Row, F, Conf>,
    source: Seq<(i64, Row)>,
) where Row: RowData, F: Copy + ColumnOperations<Row> + ColumnOrdering<Row>, Conf: Default
    requires
        entries_of(t.displayed()) == sort_spec(t.sort_column(), t.sort_direction(), source),
    ensures
        forall|i: int, j: int|
            0 <= i < j < t.displayed().len() ==> le_by(
                t.sort_column(),
                t.sort_direction(),
                (#[trigger] t.displayed()[i]).row_data,
                (#[trigger] t.displayed()[j]).row_data,
            ),
{
    lemma_sort_spec_props(t.sort_column(), t.sort_direction(), source);
    let ent = entries_of(t.displayed());
    assert forall|i: int, j: int| 0 <= i < j < t.displayed().len() implies le_by(
        t.sort_column(),
        t.sort_direction(),
        (#[trigger] t.displayed()[i]).row_data,
        (#[trigger] t.displayed()[j]).row_data,
    ) by {
        assert(ent[i] == crate::entry_of(t.displayed()[i]));
        assert(ent[j] == crate::entry_of(t.displayed()[j]));
    }
}

/// Selection/active-set invariant: in every reachable table state the
/// active rows are exactly the displayed rows with a selected cell, and the
/// active columns exactly the columns with one, with no duplicate entries.
pub proof fn lemma_active_sets_exact<Row, F, Conf>(t: &SelectableTable<Row, F, Conf>) where
    Row: RowData,
    F: Copy + ColumnOperations<Row> + ColumnOrdering<Row>,
    Conf: Default,

    requires
        t.inv(),
    ensures
        forall|id: i64|
            #![trigger t.active_row_ids().contains(id)]
            #![trigger row_has_selection(t.displayed(), id)]
            t.active_row_ids().contains(id) <==> row_has_selection(t.displayed(), id),
        forall|c: int|
            0 <= c < t.active_column_flags().len() ==> ((#[trigger] t.active_column_flags()[c])
                <==> column_has_selection(t.displayed(), c)),
        t.active_row_ids().no_duplicates(),
{
}

} // verus!
