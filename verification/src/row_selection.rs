//! The drag-select state machine: which cells are selected, how a drag
//! extends or replaces the selection, and the clipboard text of the
//! selection in visual order.

use vstd::prelude::*;

verus! {

use crate::ColumnOperations;
use vstd::string::StringExecFns;
use crate::ColumnOrdering;
use crate::RowData;
use crate::SelectableRow;
use crate::SelectableTable;
use crate::SortOrder;

impl<Row, F, Conf> SelectableTable<Row, F, Conf> where
    Row: RowData,
    F: Copy + ColumnOperations<Row> + ColumnOrdering<Row>,
    Conf: Default,
 {
    /// Clear the whole selection: no cell stays selected, the active sets
    /// empty.  The drag state is left alone.
    pub fn unselect_all(&mut self)
        requires
            old(self).inv(),
        ensures
            final(self).inv(),
            forall|p: int, c: int| !final(self).cell_selected(p, c),
            final(self).displayed().len() == old(self).displayed().len(),
            forall|p: int|
                0 <= p < old(self).displayed().len() ==> (#[trigger] final(self).displayed()[p]).id
                    == old(self).displayed()[p].id && final(self).displayed()[p].row_data == old(self).displayed()[p].row_data,
            final(self).active_row_ids().len() == 0,
            forall|c: int|
                0 <= c < final(self).num_columns() ==> !final(self).active_column_flags()[c],
            final(self).display_index() == old(self).display_index(),
            crate::same_store(old(self), final(self)),
            crate::same_sort(old(self), final(self)),
            crate::same_drag(old(self), final(self)),
            crate::same_options(old(self), final(self)),
            crate::same_batcher(old(self), final(self)),
            final(self).config_spec() == old(self).config_spec(),
    {
        let ncols = self.all_columns.len();
        let mut p: usize = 0;
        while p < self.formatted_rows.len()
            invariant
                p <= self.formatted_rows@.len(),
                self.inv_core(),
                ncols == self.all_columns@.len(),
                self.formatted_rows@.len() == old(self).displayed().len(),
                self.indexed_ids@ == old(self).display_index().subrange(
                    0,
                    old(self).display_index().len() as int,
                ),
                forall|q: int|
                    0 <= q < old(self).displayed().len() ==> (#[trigger] self.formatted_rows@[
                        q
                    ]).id == old(self).displayed()[q].id && self.formatted_rows@[q].row_data == old(self).displayed()[q].row_data,
                forall|q: int, c: int|
                    0 <= q < p && 0 <= c < ncols ==> !(#[trigger] self.formatted_rows@[
                        q
                    ].selected_columns@[c]),
                forall|q: int|
                    p <= q < self.formatted_rows@.len() ==> (#[trigger] self.formatted_rows@[
                        q
                    ]).selected_columns@ == old(self).displayed()[q].selected_columns@,
                crate::same_store(old(self), self),
                crate::same_sort(old(self), self),
                crate::same_drag(old(self), self),
                crate::same_options(old(self), self),
                crate::same_batcher(old(self), self),
                self.config_spec() == old(self).config_spec(),
            decreases self.formatted_rows@.len() - p,
        {
            let row_ref = &self.formatted_rows[p];
            let data = row_ref.row_data.clone_row();
            let rid = row_ref.id;
            let bitmap = crate::bools(ncols, false);
            self.formatted_rows.set(
                p,
                SelectableRow { row_data: data, id: rid, selected_columns: bitmap },
            );
            p = p + 1;
        }
        self.active_rows = Vec::new();
        self.active_columns = crate::bools(ncols, false);
        proof {
            assert forall|id2: i64| !crate::row_has_selection(self.formatted_rows@, id2) by {
                if crate::row_has_selection(self.formatted_rows@, id2) {
                    let (q, c) = choose|q: int, c: int|
                        0 <= q < self.formatted_rows@.len() && self.formatted_rows@[q].id == id2
                            && 0 <= c < self.formatted_rows@[q].selected_columns@.len()
                            && self.formatted_rows@[q].selected_columns@[c];
                    assert(false);
                }
            }
            assert forall|c: int| !crate::column_has_selection(self.formatted_rows@, c) by {
                if crate::column_has_selection(self.formatted_rows@, c) {
                    let q = choose|q: int|
                        0 <= q < self.formatted_rows@.len() && 0 <= c < self.formatted_rows@[
                            q
                        ].selected_columns@.len() && self.formatted_rows@[q].selected_columns@[c];
                    assert(false);
                }
            }
        }
    }

    /// Select every cell of every displayed row.
    pub fn select_all(&mut self)
        requires
            old(self).inv(),
        ensures
            final(self).inv(),
            forall|p: int, c: int|
                0 <= p < final(self).displayed().len() && 0 <= c < final(self).num_columns()
                    ==> final(self).cell_selected(p, c),
            final(self).displayed().len() == old(self).displayed().len(),
            forall|p: int|
                0 <= p < old(self).displayed().len() ==> (#[trigger] final(self).displayed()[p]).id
                    == old(self).displayed()[p].id && final(self).displayed()[p].row_data == old(self).displayed()[p].row_data,
            final(self).active_row_ids().len() == old(self).displayed().len(),
            forall|p: int|
                0 <= p < old(self).displayed().len() ==> final(self).active_row_ids()[p] == (
                #[trigger] old(self).displayed()[p]).id,
            forall|c: int|
                0 <= c < final(self).num_columns() ==> final(self).active_column_flags()[c] == (old(self).displayed().len() > 0),
            final(self).display_index() == old(self).display_index(),
            crate::same_store(old(self), final(self)),
            crate::same_sort(old(self), final(self)),
            crate::same_drag(old(self), final(self)),
            crate::same_options(old(self), final(self)),
            crate::same_batcher(old(self), final(self)),
            final(self).config_spec() == old(self).config_spec(),
    {
        let ncols = self.all_columns.len();
        let mut ids: Vec<i64> = Vec::new();
        let mut p: usize = 0;
        while p < self.formatted_rows.len()
            invariant
                p <= self.formatted_rows@.len(),
                self.inv_core(),
                ncols == self.all_columns@.len(),
                self.formatted_rows@.len() == old(self).displayed().len(),
                self.indexed_ids@ == old(self).display_index().subrange(
                    0,
                    old(self).display_index().len() as int,
                ),
                ids@.len() == p,
                forall|q: int| 0 <= q < p ==> ids@[q] == (#[trigger] self.formatted_rows@[q]).id,
                forall|q: int|
                    0 <= q < old(self).displayed().len() ==> (#[trigger] self.formatted_rows@[
                        q
                    ]).id == old(self).displayed()[q].id && self.formatted_rows@[q].row_data == old(self).displayed()[q].row_data,
                forall|q: int, c: int|
                    0 <= q < p && 0 <= c < ncols ==> (#[trigger] self.formatted_rows@[
                        q
                    ].selected_columns@[c]),
                forall|q: int|
                    0 <= q < self.formatted_rows@.len() ==> (#[trigger] self.formatted_rows@[
                        q
                    ]).selected_columns@.len() == ncols,
                crate::same_store(old(self), self),
                crate::same_sort(old(self), self),
                crate::same_drag(old(self), self),
                crate::same_options(old(self), self),
                crate::same_batcher(old(self), self),
                self.config_spec() == old(self).config_spec(),
            decreases self.formatted_rows@.len() - p,
        {
            let row_ref = &self.formatted_rows[p];
            let data = row_ref.row_data.clone_row();
            let rid = row_ref.id;
            let bitmap = crate::bools(ncols, true);
            ids.push(rid);
            self.formatted_rows.set(
                p,
                SelectableRow { row_data: data, id: rid, selected_columns: bitmap },
            );
            p = p + 1;
        }
        let any = self.formatted_rows.len() > 0;
        self.active_rows = ids;
        self.active_columns = crate::bools(ncols, any);
        proof {
            let fin = self.formatted_rows@;
            assert forall|q: int| 0 <= q < fin.len() implies self.active_rows@[q] == (
            #[trigger] old(self).displayed()[q]).id by {
                assert(self.active_rows@[q] == fin[q].id);
            }
            assert forall|id2: i64|
                self.active_rows@.contains(id2) <==> crate::row_has_selection(fin, id2) by {
                if self.active_rows@.contains(id2) {
                    let q = choose|q: int| 0 <= q < self.active_rows@.len() && self.active_rows@[q] == id2;
                    assert(fin[q].id == id2);
                    assert(fin[q].selected_columns@[0]);
                }
                if crate::row_has_selection(fin, id2) {
                    let (q, c) = choose|q: int, c: int|
                        0 <= q < fin.len() && fin[q].id == id2 && 0 <= c < fin[
                            q
                        ].selected_columns@.len() && fin[q].selected_columns@[c];
                    assert(self.active_rows@[q] == id2);
                }
            }
            assert forall|c: int|
                0 <= c < self.active_columns@.len() implies (#[trigger] self.active_columns@[c])
                == crate::column_has_selection(fin, c) by {
                if self.active_columns@[c] {
                    assert(fin[0].selected_columns@[c]);
                }
                if crate::column_has_selection(fin, c) {
                    assert(fin.len() > 0);
                }
            }
            assert forall|q: int, q2: int|
                0 <= q < self.active_rows@.len() && 0 <= q2 < self.active_rows@.len() && q != q2
                    implies self.active_rows@[q] != self.active_rows@[q2] by {
                assert(self.indexed_ids@[fin[q].id as int] == Some(q as usize));
                assert(self.indexed_ids@[fin[q2].id as int] == Some(q2 as usize));
            }
        }
    }

    /// End the live drag: pointer up.  The selection stays; the drag
    /// bookkeeping is cleared.
    pub fn end_drag(&mut self)
        requires
            old(self).inv(),
        ensures
            final(self).inv(),
            final(self).drag_origin() is None,
            !final(self).moved_beyond_origin(),
            final(self).last_pointer_row() is None,
            final(self).last_pointer_column() is None,
            crate::same_display(old(self), final(self)),
            crate::same_store(old(self), final(self)),
            crate::same_sort(old(self), final(self)),
            crate::same_active_sets(old(self), final(self)),
            crate::same_options(old(self), final(self)),
            crate::same_batcher(old(self), final(self)),
            final(self).config_spec() == old(self).config_spec(),
    {
        self.drag_started_on = None;
        self.last_active_row = None;
        self.last_active_column = None;
        self.beyond_drag_point = false;
    }

    /// Begin a drag on the given cell.  Without the additive modifier the
    /// previous selection is cleared first; with it the drag extends what is
    /// already selected.  The cell itself is selected by the following
    /// click or drag handling, not here.
    pub fn start_drag(&mut self, id: i64, column: &F, additive: bool)
        requires
            old(self).inv(),
            column.index_spec() < old(self).num_columns(),
        ensures
            final(self).inv(),
            final(self).drag_origin() == Some((id, column.index_spec() as usize)),
            final(self).moved_beyond_origin() == old(self).moved_beyond_origin(),
            final(self).last_pointer_row() == old(self).last_pointer_row(),
            final(self).last_pointer_column() == old(self).last_pointer_column(),
            final(self).displayed().len() == old(self).displayed().len(),
            forall|p: int|
                0 <= p < old(self).displayed().len() ==> (#[trigger] final(self).displayed()[p]).id
                    == old(self).displayed()[p].id && final(self).displayed()[p].row_data == old(self).displayed()[p].row_data,
            if additive {
                forall|p: int, c: int|
                    final(self).cell_selected(p, c) == old(self).cell_selected(p, c)
            } else {
                forall|p: int, c: int| !final(self).cell_selected(p, c)
            },
            additive ==> crate::same_active_sets(old(self), final(self)),
            !additive ==> final(self).active_row_ids().len() == 0,
            final(self).display_index() == old(self).display_index(),
            crate::same_store(old(self), final(self)),
            crate::same_sort(old(self), final(self)),
            crate::same_options(old(self), final(self)),
            crate::same_batcher(old(self), final(self)),
            final(self).config_spec() == old(self).config_spec(),
    {
        if !additive {
            self.unselect_all();
            proof {
                assert forall|p: int, cc: int|
                    0 <= p < self.formatted_rows@.len() && 0 <= cc < self.formatted_rows@[
                        p
                    ].selected_columns@.len() implies !(#[trigger] self.formatted_rows@[
                    p
                ].selected_columns@[cc]) by {
                    assert(!self.cell_selected(p, cc));
                }
            }
        }
        let ghost disp1 = self.formatted_rows@;
        let c = self.column_to_num(column);
        self.drag_started_on = Some((id, c));
        proof {
            if !additive {
                assert(self.formatted_rows@ == disp1);
                assert forall|p: int, cc: int| !self.cell_selected(p, cc) by {
                    if 0 <= p < disp1.len() && 0 <= cc < disp1[p].selected_columns@.len() {
                        assert(!disp1[p].selected_columns@[cc]);
                    }
                }
            }
        }
    }

    /// Mark the columns `col_lo..=col_hi` of the row with the given id as
    /// selected, extending whatever is already selected, and keep the active
    /// sets in step.  Returns whether the id names a displayed row; a stale
    /// id changes nothing.
    fn select_cells_of_row(&mut self, id: i64, col_lo: usize, col_hi: usize) -> (sel: bool)
        requires
            old(self).inv(),
            col_lo <= col_hi < old(self).num_columns(),
        ensures
            final(self).inv(),
            sel == (0 <= id < old(self).display_index().len() && old(self).display_index()[
                id as int
            ] is Some),
            !sel ==> crate::same_display(old(self), final(self)) && crate::same_active_sets(
                old(self),
                final(self),
            ),
            sel ==> ({
                let p = old(self).display_index()[id as int].unwrap() as int;
                &&& final(self).displayed().len() == old(self).displayed().len()
                &&& forall|q: int|
                    0 <= q < old(self).displayed().len() && q != p ==> final(self).displayed()[q]
                        == old(self).displayed()[q]
                &&& final(self).displayed()[p].id == id
                &&& final(self).displayed()[p].row_data == old(self).displayed()[p].row_data
                &&& forall|cc: int|
                    0 <= cc < final(self).num_columns() ==> (#[trigger] final(self).displayed()[
                        p
                    ].selected_columns@[cc]) == (old(self).displayed()[p].selected_columns@[cc]
                        || (col_lo <= cc <= col_hi))
                &&& forall|id2: i64|
                    final(self).active_row_ids().contains(id2) == (old(self).active_row_ids().contains(id2) || id2 == id)
                &&& forall|c2: int|
                    0 <= c2 < final(self).num_columns() ==> (#[trigger] final(self).active_column_flags()[c2]) == (old(self).active_column_flags()[c2] || (col_lo
                        <= c2 <= col_hi))
            }),
            final(self).display_index() == old(self).display_index(),
            crate::same_store(old(self), final(self)),
            crate::same_sort(old(self), final(self)),
            crate::same_drag(old(self), final(self)),
            crate::same_options(old(self), final(self)),
            crate::same_batcher(old(self), final(self)),
            final(self).config_spec() == old(self).config_spec(),
    {
        if id < 0 || id >= self.indexed_ids.len() as i64 {
            return false;
        }
        let target = self.indexed_ids[id as usize];
        match target {
            None => false,
            Some(p) => {
                proof {
                    assert(self.indexed_ids@[id as int] == Some(p));
                    assert(self.formatted_rows@[p as int].id == id);
                }
                let row_ref = &self.formatted_rows[p];
                let data = row_ref.row_data.clone_row();
                let rid = row_ref.id;
                let mut bitmap = crate::copy_bools(&row_ref.selected_columns);
                let blen = bitmap.len();
                let mut cc = col_lo;
                while cc <= col_hi
                    invariant
                        col_lo <= cc <= col_hi + 1,
                        col_hi < blen,
                        blen == bitmap@.len(),
                        bitmap@.len() == old(self).displayed()[p as int].selected_columns@.len(),
                        forall|k: int|
                            0 <= k < bitmap@.len() ==> (#[trigger] bitmap@[k]) == (old(self).displayed()[p as int].selected_columns@[k] || (col_lo <= k < cc)),
                    decreases col_hi + 1 - cc,
                {
                    bitmap.set(cc, true);
                    cc = cc + 1;
                }
                let ghost before = self.formatted_rows@;
                let ghost newbits = bitmap@;
                self.formatted_rows.set(
                    p,
                    SelectableRow { row_data: data, id: rid, selected_columns: bitmap },
                );
                let ghost fin0 = self.formatted_rows@;
                proof {
                    assert(fin0 == before.update(p as int, fin0[p as int]));
                    assert(fin0[p as int].selected_columns@ == newbits);
                }
                let had = contains_id(&self.active_rows, rid);
                let ghost a1 = self.active_rows@;
                if !had {
                    self.active_rows.push(rid);
                    proof {
                        assert(self.active_rows@ == a1.push(rid));
                        assert forall|i: int, j: int|
                            0 <= i < j < self.active_rows@.len() implies self.active_rows@[i]
                            != self.active_rows@[j] by {
                            if j == a1.len() {
                                if self.active_rows@[i] == rid {
                                    assert(a1[i] == rid);
                                    assert(a1.contains(rid));
                                    assert(false);
                                }
                            }
                        }
                    }
                }
                let ghost acts0 = self.active_rows@;
                proof {
                    assert(acts0.contains(rid)) by {
                        if had {
                        } else {
                            assert(acts0[a1.len() as int] == rid);
                        }
                    }
                    assert forall|id2: i64|
                        acts0.contains(id2) == (a1.contains(id2) || id2 == rid) by {
                        if a1.contains(id2) {
                            let j = choose|j: int| 0 <= j < a1.len() && #[trigger] a1[j] == id2;
                            assert(acts0[j] == id2);
                            assert(acts0.contains(id2));
                        }
                        if id2 == rid {
                            assert(acts0.contains(id2));
                        }
                        if acts0.contains(id2) && !had {
                            let j = choose|j: int|
                                0 <= j < acts0.len() && #[trigger] acts0[j] == id2;
                            if j < a1.len() {
                                assert(a1[j] == id2);
                                assert(a1.contains(id2));
                            } else {
                                assert(id2 == rid);
                            }
                        }
                    }
                    assert(acts0.no_duplicates());
                }
                let alen = self.active_columns.len();
                let mut c2 = col_lo;
                while c2 <= col_hi
                    invariant
                        col_lo <= c2 <= col_hi + 1,
                        col_hi < alen,
                        alen == self.active_columns@.len(),
                        self.active_columns@.len() == old(self).active_column_flags().len(),
                        forall|k: int|
                            0 <= k < self.active_columns@.len() ==> (
                            #[trigger] self.active_columns@[k]) == (old(self).active_column_flags()[
                                k
                            ] || (col_lo <= k < c2)),
                        self.formatted_rows@ == fin0,
                        self.active_rows@ == acts0,
                        self.last_id_used == old(self).last_id_used,
                        self.indexed_ids@ == old(self).display_index().subrange(
                            0,
                            old(self).display_index().len() as int,
                        ),
                        crate::same_store(old(self), self),
                        crate::same_sort(old(self), self),
                        crate::same_drag(old(self), self),
                        crate::same_options(old(self), self),
                        crate::same_batcher(old(self), self),
                        self.config_spec() == old(self).config_spec(),
                    decreases col_hi + 1 - c2,
                {
                    self.active_columns.set(c2, true);
                    c2 = c2 + 1;
                }
                proof {
                    let fin = self.formatted_rows@;
                    let pi = p as int;
                    assert(fin == fin0);
                    assert(fin[pi].selected_columns@ == newbits);
                    assert forall|id2: i64|
                        self.active_rows@.contains(id2) <==> crate::row_has_selection(fin, id2) by {
                        if self.active_rows@.contains(id2) {
                            if id2 == rid {
                                assert(fin[pi].selected_columns@[col_lo as int]);
                                assert(crate::row_has_selection(fin, id2));
                            } else {
                                assert(old(self).active_row_ids().contains(id2));
                                assert(crate::row_has_selection(before, id2));
                                let (q, c3) = choose|q: int, c3: int|
                                    0 <= q < before.len() && before[q].id == id2 && 0 <= c3
                                        < before[q].selected_columns@.len()
                                        && before[q].selected_columns@[c3];
                                if q == pi {
                                    assert(fin[q].selected_columns@[c3]);
                                } else {
                                    assert(fin[q] == before[q]);
                                }
                                assert(crate::row_has_selection(fin, id2));
                            }
                        }
                        if crate::row_has_selection(fin, id2) {
                            if !self.active_rows@.contains(id2) {
                                let (q, c3) = choose|q: int, c3: int|
                                    0 <= q < fin.len() && fin[q].id == id2 && 0 <= c3 < fin[
                                        q
                                    ].selected_columns@.len() && fin[q].selected_columns@[c3];
                                assert(id2 != rid);
                                assert(q != pi);
                                assert(before[q] == fin[q]);
                                assert(crate::row_has_selection(before, id2));
                                assert(old(self).active_row_ids().contains(id2));
                                assert(false);
                            }
                        }
                    }
                    assert forall|c3: int|
                        0 <= c3 < self.active_columns@.len() implies (
                    #[trigger] self.active_columns@[c3]) == crate::column_has_selection(
                        fin,
                        c3,
                    ) by {
                        if self.active_columns@[c3] {
                            if col_lo <= c3 <= col_hi {
                                assert(fin[pi].selected_columns@[c3]);
                                assert(crate::column_has_selection(fin, c3));
                            } else {
                                assert(old(self).active_column_flags()[c3]);
                                assert(crate::column_has_selection(before, c3));
                                let q = choose|q: int|
                                    0 <= q < before.len() && 0 <= c3 < before[
                                        q
                                    ].selected_columns@.len() && before[q].selected_columns@[c3];
                                if q == pi {
                                    assert(fin[q].selected_columns@[c3]);
                                } else {
                                    assert(fin[q] == before[q]);
                                }
                                assert(crate::column_has_selection(fin, c3));
                            }
                        }
                        if crate::column_has_selection(fin, c3) {
                            if !self.active_columns@[c3] {
                                let q = choose|q: int|
                                    0 <= q < fin.len() && 0 <= c3 < fin[q].selected_columns@.len()
                                        && fin[q].selected_columns@[c3];
                                assert(!(col_lo <= c3 <= col_hi));
                                if q == pi {
                                    assert(before[q].selected_columns@[c3]);
                                } else {
                                    assert(before[q] == fin[q]);
                                }
                                assert(crate::column_has_selection(before, c3));
                                assert(old(self).active_column_flags()[c3]);
                                assert(false);
                            }
                        }
                    }
                }
                true
            },
        }
    }

    /// Select exactly the given cell of the given row, extending whatever is
    /// already selected; in full-row mode the whole row is selected instead.
    /// A stale id changes nothing.  Callers that want a fresh selection call
    /// [`Self::unselect_all`] first, as the click handling does without the
    /// additive modifier.
    pub fn select_single_row_cell(&mut self, id: i64, column: &F)
        requires
            old(self).inv(),
            column.index_spec() < old(self).num_columns(),
        ensures
            final(self).inv(),
            ({
                let sel = 0 <= id < old(self).display_index().len() && old(self).display_index()[
                    id as int
                ] is Some;
                let lo = if old(self).full_row_mode() {
                    0int
                } else {
                    column.index_spec() as int
                };
                let hi = if old(self).full_row_mode() {
                    old(self).num_columns() - 1
                } else {
                    column.index_spec() as int
                };
                &&& !sel ==> crate::same_display(old(self), final(self))
                    && crate::same_active_sets(old(self), final(self))
                &&& sel ==> ({
                    let p = old(self).display_index()[id as int].unwrap() as int;
                    &&& final(self).displayed().len() == old(self).displayed().len()
                    &&& forall|q: int|
                        0 <= q < old(self).displayed().len() && q != p ==> final(self).displayed()[q] == old(self).displayed()[q]
                    &&& final(self).displayed()[p].id == id
                    &&& forall|cc: int|
                        0 <= cc < final(self).num_columns() ==> (#[trigger] final(self).displayed()[p].selected_columns@[cc]) == (old(self).displayed()[
                            p
                        ].selected_columns@[cc] || (lo <= cc <= hi))
                })
            }),
            final(self).display_index() == old(self).display_index(),
            crate::same_store(old(self), final(self)),
            crate::same_sort(old(self), final(self)),
            crate::same_drag(old(self), final(self)),
            crate::same_options(old(self), final(self)),
            crate::same_batcher(old(self), final(self)),
            final(self).config_spec() == old(self).config_spec(),
    {
        let c = self.column_to_num(column);
        if self.select_full_row {
            let last = self.all_columns.len() - 1;
            self.select_cells_of_row(id, 0, last);
        } else {
            self.select_cells_of_row(id, c, c);
        }
    }

    /// Mark a whole row as selected, or one of its cells when a column is
    /// given; full-row mode widens a single cell to the whole row.  A stale
    /// id changes nothing.
    pub fn mark_row_as_selected(&mut self, id: i64, column: Option<&F>)
        requires
            old(self).inv(),
            match column {
                Some(col) => col.index_spec() < old(self).num_columns(),
                None => true,
            },
        ensures
            final(self).inv(),
            ({
                let sel = 0 <= id < old(self).display_index().len() && old(self).display_index()[
                    id as int
                ] is Some;
                let lo = match column {
                    Some(col) => if old(self).full_row_mode() {
                        0int
                    } else {
                        col.index_spec() as int
                    },
                    None => 0int,
                };
                let hi = match column {
                    Some(col) => if old(self).full_row_mode() {
                        old(self).num_columns() - 1
                    } else {
                        col.index_spec() as int
                    },
                    None => old(self).num_columns() - 1,
                };
                &&& !sel ==> crate::same_display(old(self), final(self))
                    && crate::same_active_sets(old(self), final(self))
                &&& sel ==> ({
                    let p = old(self).display_index()[id as int].unwrap() as int;
                    &&& final(self).displayed().len() == old(self).displayed().len()
                    &&& forall|q: int|
                        0 <= q < old(self).displayed().len() && q != p ==> final(self).displayed()[q] == old(self).displayed()[q]
                    &&& final(self).displayed()[p].id == id
                    &&& forall|cc: int|
                        0 <= cc < final(self).num_columns() ==> (#[trigger] final(self).displayed()[p].selected_columns@[cc]) == (old(self).displayed()[
                            p
                        ].selected_columns@[cc] || (lo <= cc <= hi))
                })
            }),
            final(self).display_index() == old(self).display_index(),
            crate::same_store(old(self), final(self)),
            crate::same_sort(old(self), final(self)),
            crate::same_drag(old(self), final(self)),
            crate::same_options(old(self), final(self)),
            crate::same_batcher(old(self), final(self)),
            final(self).config_spec() == old(self).config_spec(),
    {
        let last = self.all_columns.len() - 1;
        match column {
            None => {
                self.select_cells_of_row(id, 0, last);
            },
            Some(col) => {
                let c = self.column_to_num(col);
                if self.select_full_row {
                    self.select_cells_of_row(id, 0, last);
                } else {
                    self.select_cells_of_row(id, c, c);
                }
            },
        }
    }

    /// Extend or replace the selection as the pointer drags over the given
    /// cell.  The rectangle between the drag origin and this cell — rows by
    /// their current display positions, columns by their declared order, the
    /// whole row width in full-row mode — becomes selected: with the
    /// additive modifier it is added to the selection, without it it becomes
    /// the whole selection.  Nothing happens while no drag is live, while
    /// the pointer has not left the origin cell, or when either end of the
    /// rectangle is no longer displayed.
    #[verifier::rlimit(60)]
    pub fn select_dragged_row_cell(&mut self, id: i64, column: &F, is_ctrl_pressed: bool)
        requires
            old(self).inv(),
            column.index_spec() < old(self).num_columns(),
        ensures
            final(self).inv(),
            crate::same_store(old(self), final(self)),
            crate::same_sort(old(self), final(self)),
            crate::same_options(old(self), final(self)),
            crate::same_batcher(old(self), final(self)),
            final(self).config_spec() == old(self).config_spec(),
            final(self).display_index() == old(self).display_index(),
            final(self).displayed().len() == old(self).displayed().len(),
            forall|q: int|
                0 <= q < old(self).displayed().len() ==> (#[trigger] final(self).displayed()[q]).id
                    == old(self).displayed()[q].id && final(self).displayed()[q].row_data == old(
                    self,
                ).displayed()[q].row_data,
            final(self).drag_origin() == old(self).drag_origin(),
            ({
                let cidx = column.index_spec() as int;
                let idxs = old(self).display_index();
                let noop = match old(self).drag_origin() {
                    None => true,
                    Some(o) => (o.0 == id && o.1 == cidx && !old(self).moved_beyond_origin()) || !(
                    0 <= o.0 < idxs.len() && idxs[o.0 as int] is Some) || !(0 <= id < idxs.len()
                        && idxs[id as int] is Some),
                };
                if noop {
                    &&& forall|q: int, c: int|
                        final(self).cell_selected(q, c) == old(self).cell_selected(q, c)
                    &&& crate::same_active_sets(old(self), final(self))
                    &&& crate::same_drag(old(self), final(self))
                } else {
                    let o = old(self).drag_origin().unwrap();
                    let po = idxs[o.0 as int].unwrap() as int;
                    let pt = idxs[id as int].unwrap() as int;
                    let row_lo = if po <= pt {
                        po
                    } else {
                        pt
                    };
                    let row_hi = if po <= pt {
                        pt
                    } else {
                        po
                    };
                    let col_lo = if old(self).full_row_mode() {
                        0int
                    } else if o.1 as int <= cidx {
                        o.1 as int
                    } else {
                        cidx
                    };
                    let col_hi = if old(self).full_row_mode() {
                        old(self).num_columns() - 1
                    } else if o.1 as int <= cidx {
                        cidx
                    } else {
                        o.1 as int
                    };
                    &&& forall|q: int, c: int|
                        0 <= q < old(self).displayed().len() && 0 <= c < old(self).num_columns()
                            ==> (#[trigger] final(self).displayed()[q].selected_columns@[c]) == ((
                        is_ctrl_pressed && old(self).displayed()[q].selected_columns@[c]) || (row_lo
                            <= q <= row_hi && col_lo <= c <= col_hi))
                    &&& final(self).moved_beyond_origin()
                    &&& final(self).last_pointer_row() == Some(id)
                    &&& final(self).last_pointer_column() == Some(cidx as usize)
                }
            }),
    {
        let origin = match self.drag_started_on {
            None => {
                return ;
            },
            Some(o) => o,
        };
        let cidx = self.column_to_num(column);
        if origin.0 == id && origin.1 == cidx && !self.beyond_drag_point {
            return ;
        }
        let n_idx = self.indexed_ids.len();
        if origin.0 < 0 || origin.0 >= n_idx as i64 {
            return ;
        }
        let po = match self.indexed_ids[origin.0 as usize] {
            None => {
                return ;
            },
            Some(p) => p,
        };
        if id < 0 || id >= n_idx as i64 {
            return ;
        }
        let pt = match self.indexed_ids[id as usize] {
            None => {
                return ;
            },
            Some(p) => p,
        };
        proof {
            assert(self.indexed_ids@[origin.0 as int] == Some(po));
            assert(self.formatted_rows@[po as int].id == origin.0);
            assert(self.indexed_ids@[id as int] == Some(pt));
            assert(self.formatted_rows@[pt as int].id == id);
        }
        let row_lo = if po <= pt {
            po
        } else {
            pt
        };
        let row_hi = if po <= pt {
            pt
        } else {
            po
        };
        let ncols = self.all_columns.len();
        let col_lo = if self.select_full_row {
            0
        } else if origin.1 <= cidx {
            origin.1
        } else {
            cidx
        };
        let col_hi = if self.select_full_row {
            ncols - 1
        } else if origin.1 <= cidx {
            cidx
        } else {
            origin.1
        };
        if is_ctrl_pressed {
            let total = self.formatted_rows.len();
            let mut q = row_lo;
            while q <= row_hi
                invariant
                    row_lo <= q <= row_hi + 1,
                    row_hi < total,
                    total == self.formatted_rows@.len(),
                    col_lo <= col_hi < self.all_columns@.len(),
                    self.inv(),
                    self.formatted_rows@.len() == old(self).displayed().len(),
                    self.indexed_ids@ == old(self).display_index(),
                    self.drag_started_on == old(self).drag_origin(),
                    self.beyond_drag_point == old(self).moved_beyond_origin(),
                    self.last_active_row == old(self).last_pointer_row(),
                    self.last_active_column == old(self).last_pointer_column(),
                    self.last_id_used == old(self).last_id_used,
                    forall|q2: int|
                        0 <= q2 < old(self).displayed().len() ==> (
                        #[trigger] self.formatted_rows@[q2]).id == old(self).displayed()[q2].id
                            && self.formatted_rows@[q2].row_data == old(self).displayed()[
                            q2
                        ].row_data,
                    forall|q2: int, c: int|
                        0 <= q2 < old(self).displayed().len() && 0 <= c < old(self).num_columns()
                            ==> (#[trigger] self.formatted_rows@[q2].selected_columns@[c]) == (old(
                            self,
                        ).displayed()[q2].selected_columns@[c] || (row_lo <= q2 < q && col_lo <= c
                            <= col_hi)),
                    crate::same_store(old(self), self),
                    crate::same_sort(old(self), self),
                    crate::same_options(old(self), self),
                    crate::same_batcher(old(self), self),
                    self.config_spec() == old(self).config_spec(),
                decreases row_hi + 1 - q,
            {
                let rid = self.formatted_rows[q].id;
                proof {
                    assert(self.indexed_ids@[rid as int] == Some(q));
                }
                self.select_cells_of_row(rid, col_lo, col_hi);
                q = q + 1;
            }
        } else {
            let span = range_bools(ncols, col_lo, col_hi);
            let mut q: usize = 0;
            let total = self.formatted_rows.len();
            while q < total
                invariant
                    q <= total,
                    total == self.formatted_rows@.len(),
                    row_lo <= row_hi < total,
                    col_lo <= col_hi < self.all_columns@.len(),
                    ncols == self.all_columns@.len(),
                    span@.len() == self.all_columns@.len(),
                    forall|k: int| 0 <= k < span@.len() ==> (#[trigger] span@[k]) == (col_lo <= k
                        <= col_hi),
                    self.inv_core(),
                    self.formatted_rows@.len() == old(self).displayed().len(),
                    self.indexed_ids@ == old(self).display_index(),
                    self.drag_started_on == old(self).drag_origin(),
                    self.beyond_drag_point == old(self).moved_beyond_origin(),
                    self.last_active_row == old(self).last_pointer_row(),
                    self.last_active_column == old(self).last_pointer_column(),
                    self.last_id_used == old(self).last_id_used,
                    self.active_rows@ == old(self).active_row_ids(),
                    self.active_columns@ == old(self).active_column_flags(),
                    forall|q2: int|
                        0 <= q2 < old(self).displayed().len() ==> (
                        #[trigger] self.formatted_rows@[q2]).id == old(self).displayed()[q2].id
                            && self.formatted_rows@[q2].row_data == old(self).displayed()[
                            q2
                        ].row_data,
                    forall|q2: int, c: int|
                        0 <= q2 < q && 0 <= c < old(self).num_columns() ==> (
                        #[trigger] self.formatted_rows@[q2].selected_columns@[c]) == (row_lo <= q2
                            <= row_hi && col_lo <= c <= col_hi),
                    forall|q2: int|
                        q <= q2 < old(self).displayed().len() ==> (#[trigger] self.formatted_rows@[
                            q2
                        ]).selected_columns@ == old(self).displayed()[q2].selected_columns@,
                    crate::same_store(old(self), self),
                    crate::same_sort(old(self), self),
                    crate::same_options(old(self), self),
                    crate::same_batcher(old(self), self),
                    self.config_spec() == old(self).config_spec(),
                decreases total - q,
            {
                let row_ref = &self.formatted_rows[q];
                let data = row_ref.row_data.clone_row();
                let rid = row_ref.id;
                let bitmap = if row_lo <= q && q <= row_hi {
                    crate::copy_bools(&span)
                } else {
                    crate::bools(ncols, false)
                };
                self.formatted_rows.set(
                    q,
                    SelectableRow { row_data: data, id: rid, selected_columns: bitmap },
                );
                q = q + 1;
            }
            let mut ids: Vec<i64> = Vec::new();
            let mut k = row_lo;
            let ghost disp2 = self.formatted_rows@;
            while k <= row_hi
                invariant
                    row_lo <= k <= row_hi + 1,
                    row_hi < total,
                    total == self.formatted_rows@.len(),
                    self.formatted_rows@ == disp2,
                    ids@.len() == k - row_lo,
                    forall|j: int|
                        0 <= j < ids@.len() ==> ids@[j] == (#[trigger] self.formatted_rows@[
                            row_lo + j
                        ]).id,
                decreases row_hi + 1 - k,
            {
                let rid = self.formatted_rows[k].id;
                ids.push(rid);
                k = k + 1;
            }
            self.active_rows = ids;
            self.active_columns = crate::copy_bools(&span);
            proof {
                let fin = self.formatted_rows@;
                assert forall|id2: i64|
                    self.active_rows@.contains(id2) <==> crate::row_has_selection(fin, id2) by {
                    if self.active_rows@.contains(id2) {
                        let j = choose|j: int|
                            0 <= j < self.active_rows@.len() && self.active_rows@[j] == id2;
                        assert(fin[row_lo + j].id == id2);
                        assert(fin[row_lo + j].selected_columns@[col_lo as int]);
                        assert(crate::row_has_selection(fin, id2));
                    }
                    if crate::row_has_selection(fin, id2) {
                        let (q2, c2) = choose|q2: int, c2: int|
                            0 <= q2 < fin.len() && fin[q2].id == id2 && 0 <= c2 < fin[
                                q2
                            ].selected_columns@.len() && fin[q2].selected_columns@[c2];
                        assert(row_lo <= q2 <= row_hi);
                        let j = q2 - row_lo;
                        assert(self.active_rows@[j] == (#[trigger] self.formatted_rows@[
                            row_lo + j
                        ]).id);
                        assert(self.active_rows@[j] == id2);
                        assert(self.active_rows@.contains(id2));
                    }
                }
                assert forall|c2: int|
                    0 <= c2 < self.active_columns@.len() implies (
                #[trigger] self.active_columns@[c2]) == crate::column_has_selection(fin, c2) by {
                    if self.active_columns@[c2] {
                        assert(fin[row_lo as int].selected_columns@[c2]);
                        assert(crate::column_has_selection(fin, c2));
                    }
                    if crate::column_has_selection(fin, c2) {
                        let q2 = choose|q2: int|
                            0 <= q2 < fin.len() && 0 <= c2 < fin[q2].selected_columns@.len() && fin[
                                q2
                            ].selected_columns@[c2];
                        assert(col_lo <= c2 <= col_hi);
                    }
                }
                assert forall|i: int, j: int|
                    0 <= i < j < self.active_rows@.len() implies self.active_rows@[i]
                    != self.active_rows@[j] by {
                    assert(self.indexed_ids@[fin[row_lo + i].id as int] == Some(
                        (row_lo + i) as usize,
                    ));
                    assert(self.indexed_ids@[fin[row_lo + j].id as int] == Some(
                        (row_lo + j) as usize,
                    ));
                }
            }
        }
        let ghost disp3 = self.formatted_rows@;
        self.beyond_drag_point = true;
        self.last_active_row = Some(id);
        self.last_active_column = Some(cidx);
        proof {
            assert(self.formatted_rows@ == disp3);
        }
    }

    /// The text of every selected cell, row-major in display order: cells
    /// of one row separated by tabs, rows separated by line breaks, so that
    /// pasting into a spreadsheet reproduces the visual layout.  The cell
    /// texts themselves come from the columns' text extraction.
    pub fn selected_cells_text(&self) -> (r: String)
        requires
            self.inv(),
        ensures
            exists|texts: Seq<Seq<char>>|
                texts.len() == selected_cells(self.displayed(), self.num_columns() as int).len()
                    && r@ == joined_cells(
                    selected_cells(self.displayed(), self.num_columns() as int),
                    texts,
                    selected_cells(self.displayed(), self.num_columns() as int).len() as int,
                ),
    {
        let ghost disp = self.formatted_rows@;
        let ghost ncols_i = self.all_columns@.len() as int;
        let ncols = self.all_columns.len();
        let mut s = String::new();
        let ghost mut cells_g: Seq<(int, int)> = Seq::empty();
        let ghost mut texts_g: Seq<Seq<char>> = Seq::empty();
        let mut wrote_any = false;
        let total = self.formatted_rows.len();
        let mut p: usize = 0;
        while p < total
            invariant
                self.inv(),
                p <= total,
                total == self.formatted_rows@.len(),
                disp == self.formatted_rows@,
                ncols == self.all_columns@.len(),
                ncols_i == ncols as int,
                cells_g == selected_cells_upto(disp, ncols_i, p as int),
                texts_g.len() == cells_g.len(),
                s@ == joined_cells(cells_g, texts_g, cells_g.len() as int),
                wrote_any == (cells_g.len() > 0),
            decreases total - p,
        {
            let ghost row = disp[p as int];
            let ghost base = cells_g;
            let mut c: usize = 0;
            let mut row_wrote = false;
            proof {
                assert(row_selected_cols(row, 0).map_values(|cc: int| (p as int, cc))
                    =~= Seq::<(int, int)>::empty());
                assert(cells_g =~= base + row_selected_cols(row, 0).map_values(
                    |cc: int| (p as int, cc),
                ));
            }
            while c < ncols
                invariant
                    self.inv(),
                    p < total,
                    c <= ncols,
                    total == self.formatted_rows@.len(),
                    disp == self.formatted_rows@,
                    ncols == self.all_columns@.len(),
                    ncols_i == ncols as int,
                    row == disp[p as int],
                    base == selected_cells_upto(disp, ncols_i, p as int),
                    cells_g == base + row_selected_cols(row, c as int).map_values(
                        |cc: int| (p as int, cc),
                    ),
                    texts_g.len() == cells_g.len(),
                    s@ == joined_cells(cells_g, texts_g, cells_g.len() as int),
                    wrote_any == (cells_g.len() > 0),
                    row_wrote == (row_selected_cols(row, c as int).len() > 0),
                decreases ncols - c,
            {
                let ghost rsc = row_selected_cols(row, c as int);
                let selected = self.formatted_rows[p].selected_columns[c];
                if selected {
                    let ghost s0 = s@;
                    let ghost cells0 = cells_g;
                    let ghost texts0 = texts_g;
                    let ghost n0 = cells_g.len() as int;
                    let ghost sep: Seq<char> = if !wrote_any {
                        Seq::empty()
                    } else if row_wrote {
                        seq!['\t']
                    } else {
                        seq!['\n']
                    };
                    if wrote_any {
                        if row_wrote {
                            s.append("\t");
                        } else {
                            s.append("\n");
                        }
                    }
                    let txt = self.all_columns[c].column_text(&self.formatted_rows[p].row_data);
                    s.append(txt.as_str());
                    proof {
                        reveal_strlit("\t");
                        reveal_strlit("\n");
                        assert("\t"@ =~= seq!['\t']);
                        assert("\n"@ =~= seq!['\n']);
                        assert(s@ == s0 + sep + txt@);
                        cells_g = cells_g.push((p as int, c as int));
                        texts_g = texts_g.push(txt@);
                        assert(cells_g.len() == n0 + 1);
                        lemma_joined_cells_prefix(cells_g, texts_g, cells0, texts0, n0);
                        assert(joined_cells(cells_g, texts_g, n0) == s0);
                        // The separator in the specification matches the one
                        // appended: a tab when the previous cell is in this
                        // row, a line break when it is in an earlier row.
                        if n0 > 0 {
                            lemma_cells_upto_bounds(disp, ncols_i, p as int);
                            if row_wrote {
                                assert(rsc.len() > 0);
                                assert(cells0[n0 - 1] == rsc.map_values(
                                    |cc: int| (p as int, cc),
                                ).last());
                                assert(cells0[n0 - 1].0 == p as int);
                            } else {
                                assert(cells0 == base);
                                assert(cells0[n0 - 1].0 < p as int);
                            }
                            assert(cells_g[n0 - 1] == cells0[n0 - 1]);
                        }
                        assert(s@ == joined_cells(cells_g, texts_g, n0 + 1));
                        // The new cell list is the old one with this column
                        // appended.
                        assert(row_selected_cols(row, c + 1) == rsc.push(c as int));
                        assert(rsc.push(c as int).map_values(|cc: int| (p as int, cc))
                            =~= rsc.map_values(|cc: int| (p as int, cc)).push((p as int, c as int)));
                        assert(cells_g =~= base + row_selected_cols(row, c + 1).map_values(
                            |cc: int| (p as int, cc),
                        ));
                    }
                    wrote_any = true;
                    row_wrote = true;
                } else {
                    proof {
                        assert(row_selected_cols(row, c + 1) == rsc);
                    }
                }
                c = c + 1;
            }
            proof {
                assert(selected_cells_upto(disp, ncols_i, p + 1) == base + row_selected_cols(
                    row,
                    ncols_i,
                ).map_values(|cc: int| (p as int, cc)));
            }
            p = p + 1;
        }
        proof {
            assert(cells_g == selected_cells(disp, ncols_i));
            assert(disp == self.displayed());
            assert(ncols_i == self.num_columns() as int);
            let cells = selected_cells(self.displayed(), self.num_columns() as int);
            assert(texts_g.len() == cells.len());
            assert(s@ == joined_cells(cells, texts_g, cells.len() as int));
        }
        s
    }

    /// Flip the sort direction, dropping the selection: changing how the
    /// table sorts invalidates what a selection means.  The caller re-projects
    /// afterwards.
    pub fn change_sort_order(&mut self)
        requires
            old(self).inv(),
        ensures
            final(self).inv(),
            final(self).sort_column() == old(self).sort_column(),
            final(self).sort_direction() == match old(self).sort_direction() {
                SortOrder::Ascending => SortOrder::Descending,
                SortOrder::Descending => SortOrder::Ascending,
            },
            forall|p: int, c: int| !final(self).cell_selected(p, c),
            final(self).active_row_ids().len() == 0,
            final(self).displayed().len() == old(self).displayed().len(),
            final(self).display_index() == old(self).display_index(),
            crate::same_store(old(self), final(self)),
            crate::same_drag(old(self), final(self)),
            crate::same_options(old(self), final(self)),
            crate::same_batcher(old(self), final(self)),
            final(self).config_spec() == old(self).config_spec(),
    {
        self.unselect_all();
        proof {
            assert forall|p: int, c: int|
                0 <= p < self.formatted_rows@.len() && 0 <= c < self.formatted_rows@[
                    p
                ].selected_columns@.len() implies !(#[trigger] self.formatted_rows@[
                p
            ].selected_columns@[c]) by {
                assert(!self.cell_selected(p, c));
            }
        }
        let next = match self.sort_order {
            SortOrder::Ascending => SortOrder::Descending,
            SortOrder::Descending => SortOrder::Ascending,
        };
        let ghost disp1 = self.formatted_rows@;
        self.sort_order = next;
        proof {
            assert(self.formatted_rows@ == disp1);
            assert forall|p: int, c: int| !self.cell_selected(p, c) by {
                if 0 <= p < disp1.len() && 0 <= c < disp1[p].selected_columns@.len() {
                    assert(!disp1[p].selected_columns@[c]);
                }
            }
        }
    }

    /// Sort by another column, ascending, dropping the selection.  The
    /// caller re-projects afterwards.
    pub fn change_sorted_by(&mut self, sort_by: &F)
        requires
            old(self).inv(),
            sort_by.index_spec() < old(self).num_columns(),
        ensures
            final(self).inv(),
            final(self).sort_column() == *sort_by,
            final(self).sort_direction() == SortOrder::Ascending,
            forall|p: int, c: int| !final(self).cell_selected(p, c),
            final(self).active_row_ids().len() == 0,
            final(self).displayed().len() == old(self).displayed().len(),
            final(self).display_index() == old(self).display_index(),
            crate::same_store(old(self), final(self)),
            crate::same_drag(old(self), final(self)),
            crate::same_options(old(self), final(self)),
            crate::same_batcher(old(self), final(self)),
            final(self).config_spec() == old(self).config_spec(),
    {
        self.unselect_all();
        proof {
            assert forall|p: int, c: int|
                0 <= p < self.formatted_rows@.len() && 0 <= c < self.formatted_rows@[
                    p
                ].selected_columns@.len() implies !(#[trigger] self.formatted_rows@[
                p
            ].selected_columns@[c]) by {
                assert(!self.cell_selected(p, c));
            }
        }
        let ghost disp1 = self.formatted_rows@;
        self.sorted_by = *sort_by;
        self.sort_order = SortOrder::Ascending;
        proof {
            assert(self.formatted_rows@ == disp1);
            assert forall|p: int, c: int| !self.cell_selected(p, c) by {
                if 0 <= p < disp1.len() && 0 <= c < disp1[p].selected_columns@.len() {
                    assert(!disp1[p].selected_columns@[c]);
                }
            }
        }
    }
}

/// The declared indices of the selected columns of `row` below `c`,
/// ascending.
pub open spec fn row_selected_cols<Row>(row: SelectableRow<Row>, c: int) -> Seq<int>
    decreases c,
{
    if c <= 0 {
        Seq::empty()
    } else if row.selected_columns@[c - 1] {
        row_selected_cols(row, c - 1).push(c - 1)
    } else {
        row_selected_cols(row, c - 1)
    }
}

/// The selected cells of the first `p` displayed rows, row-major in display
/// order, each as a display position and a declared column index.
pub open spec fn selected_cells_upto<Row>(
    disp: Seq<SelectableRow<Row>>,
    ncols: int,
    p: int,
) -> Seq<(int, int)>
    decreases p,
{
    if p <= 0 {
        Seq::empty()
    } else {
        selected_cells_upto(disp, ncols, p - 1) + row_selected_cols(disp[p - 1], ncols).map_values(
            |c: int| (p - 1, c),
        )
    }
}

/// Every selected cell, row-major in display order.
pub open spec fn selected_cells<Row>(disp: Seq<SelectableRow<Row>>, ncols: int) -> Seq<(int, int)> {
    selected_cells_upto(disp, ncols, disp.len() as int)
}

/// The clipboard text for the first `i` cells: each cell's text, a tab
/// between cells of one row, a line break between rows.
pub open spec fn joined_cells(cells: Seq<(int, int)>, texts: Seq<Seq<char>>, i: int) -> Seq<char>
    decreases i,
{
    if i <= 0 {
        Seq::empty()
    } else {
        let sep: Seq<char> = if i == 1 {
            Seq::empty()
        } else if cells[i - 1].0 == cells[i - 2].0 {
            seq!['\t']
        } else {
            seq!['\n']
        };
        joined_cells(cells, texts, i - 1) + sep + texts[i - 1]
    }
}

/// The columns listed for a row are within bounds and carry their row.
proof fn lemma_row_selected_cols_bounds<Row>(row: SelectableRow<Row>, c: int)
    ensures
        forall|k: int|
            0 <= k < row_selected_cols(row, c).len() ==> 0 <= #[trigger] row_selected_cols(
                row,
                c,
            )[k] < c,
    decreases c,
{
    if c > 0 {
        lemma_row_selected_cols_bounds(row, c - 1);
        assert forall|k: int|
            0 <= k < row_selected_cols(row, c).len() implies 0 <= #[trigger] row_selected_cols(
            row,
            c,
        )[k] < c by {
            if row.selected_columns@[c - 1] {
                if k < row_selected_cols(row, c).len() - 1 {
                    assert(row_selected_cols(row, c)[k] == row_selected_cols(row, c - 1)[k]);
                } else {
                    assert(row_selected_cols(row, c)[k] == c - 1);
                }
            } else {
                assert(row_selected_cols(row, c)[k] == row_selected_cols(row, c - 1)[k]);
            }
        }
    }
}

/// The cells listed for the first `p` rows come from those rows.
proof fn lemma_cells_upto_bounds<Row>(disp: Seq<SelectableRow<Row>>, ncols: int, p: int)
    ensures
        forall|k: int|
            0 <= k < selected_cells_upto(disp, ncols, p).len() ==> 0 <= (
            #[trigger] selected_cells_upto(disp, ncols, p)[k]).0 < p,
    decreases p,
{
    if p > 0 {
        lemma_cells_upto_bounds(disp, ncols, p - 1);
        lemma_row_selected_cols_bounds(disp[p - 1], ncols);
        let prefix = selected_cells_upto(disp, ncols, p - 1);
        let part = row_selected_cols(disp[p - 1], ncols).map_values(|c: int| (p - 1, c));
        assert forall|k: int|
            0 <= k < selected_cells_upto(disp, ncols, p).len() implies 0 <= (
        #[trigger] selected_cells_upto(disp, ncols, p)[k]).0 < p by {
            if k < prefix.len() {
                assert(selected_cells_upto(disp, ncols, p)[k] == prefix[k]);
            } else {
                assert(selected_cells_upto(disp, ncols, p)[k] == part[k - prefix.len()]);
            }
        }
    }
}

/// The joined text depends only on the first `i` cells and texts.
proof fn lemma_joined_cells_prefix(
    cells1: Seq<(int, int)>,
    texts1: Seq<Seq<char>>,
    cells2: Seq<(int, int)>,
    texts2: Seq<Seq<char>>,
    i: int,
)
    requires
        forall|k: int| 0 <= k < i ==> (#[trigger] cells1[k]) == cells2[k],
        forall|k: int| 0 <= k < i ==> (#[trigger] texts1[k]) == texts2[k],
    ensures
        joined_cells(cells1, texts1, i) == joined_cells(cells2, texts2, i),
    decreases i,
{
    if i > 0 {
        lemma_joined_cells_prefix(cells1, texts1, cells2, texts2, i - 1);
    }
}

/// A fresh vector of `n` flags, true exactly on `lo..=hi`.
fn range_bools(n: usize, lo: usize, hi: usize) -> (v: Vec<bool>)
    requires
        lo <= hi < n,
    ensures
        v@.len() == n,
        forall|k: int| 0 <= k < n ==> (#[trigger] v@[k]) == (lo <= k <= hi),
{
    let mut v: Vec<bool> = Vec::new();
    let mut i: usize = 0;
    while i < n
        invariant
            i <= n,
            v@.len() == i,
            forall|k: int| 0 <= k < i ==> (#[trigger] v@[k]) == (lo <= k <= hi),
        decreases n - i,
    {
        v.push(lo <= i && i <= hi);
        i = i + 1;
    }
    v
}

/// Whether the id occurs in the vector.
fn contains_id(v: &Vec<i64>, id: i64) -> (r: bool)
    ensures
        r == v@.contains(id),
{
    let mut i: usize = 0;
    while i < v.len()
        invariant
            i <= v@.len(),
            forall|k: int| 0 <= k < i ==> v@[k] != id,
        decreases v@.len() - i,
    {
        if v[i] == id {
            proof {
                assert(v@.contains(id)) by {
                    assert(v@[i as int] == id);
                }
            }
            return true;
        }
        i = i + 1;
    }
    false
}

} // verus!
