//! Row mutation and re-projection: inserting and modifying rows, the
//! amortized re-display that the mutation batcher drives, and the sorted
//! rebuild of the display sequence.

use vstd::prelude::*;

verus! {

use crate::AutoReload;
use crate::ColumnOperations;
use crate::ColumnOrdering;
use crate::RowData;
use crate::SelectableRow;
use crate::SelectableTable;
use crate::SortOrder;
use crate::entries_of;
use crate::entry_of;
use crate::sort::entry_le;
use crate::sort::le_by;
use crate::sort::lemma_insert_sorted_at;
use crate::sort::lemma_perm_contains;
use crate::sort::lemma_perm_ids_distinct;
use crate::sort::lemma_sort_spec_props;
use crate::sort::sort_spec;

/// Whether `a` sorts no later than `b` under the given column and
/// direction, decided by one call of the column's comparator.
fn row_le_exec<Row, F: ColumnOrdering<Row>>(by: &F, order: SortOrder, a: &Row, b: &Row) -> (r:
    bool)
    ensures
        r == le_by(*by, order, *a, *b),
{
    let ord = by.order_by(a, b);
    match order {
        SortOrder::Ascending => match ord {
            core::cmp::Ordering::Greater => false,
            _ => true,
        },
        SortOrder::Descending => match ord {
            core::cmp::Ordering::Less => false,
            _ => true,
        },
    }
}

/// Fresh display rows for the given store rows, sorted stably by the given
/// column and direction, every cell unselected.
pub(crate) fn sorted_projection<Row, F>(
    by: &F,
    order: SortOrder,
    input: &Vec<SelectableRow<Row>>,
    ncols: usize,
) -> (r: Vec<SelectableRow<Row>>) where Row: RowData, F: Copy + ColumnOrdering<Row>
    ensures
        entries_of(r@) == sort_spec(*by, order, entries_of(input@)),
        r@.len() == input@.len(),
        forall|p: int| 0 <= p < r@.len() ==> (#[trigger] r@[p]).selected_columns@.len() == ncols,
        forall|p: int, c: int|
            0 <= p < r@.len() && 0 <= c < ncols ==> !(#[trigger] r@[p].selected_columns@[c]),
{
    let ghost ent = entries_of(input@);
    let mut result: Vec<SelectableRow<Row>> = Vec::new();
    let mut i: usize = 0;
    proof {
        assert(entries_of(result@) =~= sort_spec(*by, order, ent.take(0)));
    }
    while i < input.len()
        invariant
            i <= input.len(),
            ent == entries_of(input@),
            ent.len() == input@.len(),
            result@.len() == i,
            entries_of(result@) == sort_spec(*by, order, ent.take(i as int)),
            forall|p: int|
                0 <= p < result@.len() ==> (#[trigger] result@[p]).selected_columns@.len()
                    == ncols,
            forall|p: int, c: int|
                0 <= p < result@.len() && 0 <= c < ncols ==> !(#[trigger] result@[
                    p
                ].selected_columns@[c]),
        decreases input.len() - i,
    {
        let row = &input[i];
        let data = row.row_data.clone_row();
        let id = row.id;
        let bitmap = crate::bools(ncols, false);
        let new_row = SelectableRow { row_data: data, id, selected_columns: bitmap };
        let ghost x = entry_of(new_row);
        proof {
            assert(x == ent[i as int]);
        }
        let mut pos: usize = result.len();
        while pos > 0 && !row_le_exec(by, order, &result[pos - 1].row_data, &new_row.row_data)
            invariant
                pos <= result@.len(),
                entries_of(result@).len() == result@.len(),
                forall|j: int|
                    pos <= j < result@.len() ==> !entry_le(
                        *by,
                        order,
                        #[trigger] entries_of(result@)[j],
                        x,
                    ),
                new_row.row_data == x.1,
            decreases pos,
        {
            pos = pos - 1;
        }
        proof {
            lemma_insert_sorted_at(*by, order, entries_of(result@), x, pos as int);
        }
        let ghost before = result@;
        result.insert(pos, new_row);
        proof {
            assert(entries_of(result@) =~= entries_of(before).insert(pos as int, x));
            assert(ent.take(i + 1) =~= ent.take(i as int).push(ent[i as int]));
            assert(ent.take(i + 1).drop_last() =~= ent.take(i as int));
            assert(entries_of(result@) == sort_spec(*by, order, ent.take(i + 1)));
        }
        i = i + 1;
    }
    proof {
        assert(ent.take(input@.len() as int) =~= ent);
    }
    result
}

/// The display index for the given display rows over a store of `n` rows:
/// position `id` holds the display position of the row with that id.
pub(crate) fn build_index<Row>(disp: &Vec<SelectableRow<Row>>, n: usize) -> (idx: Vec<Option<usize>>)
    requires
        forall|p: int| 0 <= p < disp@.len() ==> 0 <= (#[trigger] disp@[p]).id < n,
        forall|p: int, q: int|
            0 <= p < disp@.len() && 0 <= q < disp@.len() && p != q ==> (#[trigger] disp@[p]).id != (
            #[trigger] disp@[q]).id,
    ensures
        idx@.len() == n,
        forall|p: int|
            0 <= p < disp@.len() ==> idx@[(#[trigger] disp@[p]).id as int] == Some(p as usize),
        forall|id: int|
            0 <= id < n && (#[trigger] idx@[id]).is_some() ==> {
                let p = idx@[id].unwrap() as int;
                &&& 0 <= p < disp@.len()
                &&& disp@[p].id == id
            },
{
    let mut idx: Vec<Option<usize>> = Vec::new();
    let mut k: usize = 0;
    while k < n
        invariant
            k <= n,
            idx@.len() == k,
            forall|j: int| 0 <= j < k ==> (#[trigger] idx@[j]) is None,
        decreases n - k,
    {
        idx.push(None);
        k = k + 1;
    }
    let mut p: usize = 0;
    while p < disp.len()
        invariant
            p <= disp@.len(),
            idx@.len() == n,
            forall|q: int| 0 <= q < disp@.len() ==> 0 <= (#[trigger] disp@[q]).id < n,
            forall|q: int, q2: int|
                0 <= q < disp@.len() && 0 <= q2 < disp@.len() && q != q2 ==> (
                #[trigger] disp@[q]).id != (#[trigger] disp@[q2]).id,
            forall|q: int|
                0 <= q < p ==> idx@[(#[trigger] disp@[q]).id as int] == Some(q as usize),
            forall|id: int|
                0 <= id < n && (#[trigger] idx@[id]).is_some() ==> {
                    let q = idx@[id].unwrap() as int;
                    &&& 0 <= q < p
                    &&& disp@[q].id == id
                },
        decreases disp@.len() - p,
    {
        let id = disp[p].id;
        idx.set(id as usize, Some(p));
        p = p + 1;
    }
    idx
}

impl<Row, F, Conf> SelectableTable<Row, F, Conf> where
    Row: RowData,
    F: Copy + ColumnOperations<Row> + ColumnOrdering<Row>,
    Conf: Default,
 {
    /// Rebuild the display rows and the display index from the store, sorted
    /// by the current column and direction, every cell unselected.  The
    /// active sets are left alone: the callers decide whether the previous
    /// selection is cleared or re-attached.
    pub(crate) fn sort_rows(&mut self)
        requires
            old(self).inv_core(),
        ensures
            final(self).inv_core(),
            entries_of(final(self).displayed()) == sort_spec(
                old(self).sort_column(),
                old(self).sort_direction(),
                entries_of(old(self).store_rows()),
            ),
            final(self).displayed().len() == old(self).store_rows().len(),
            forall|p: int, c: int|
                0 <= p < final(self).displayed().len() && 0 <= c < final(self).num_columns()
                    ==> !(#[trigger] final(self).displayed()[p].selected_columns@[c]),
            forall|id: int|
                0 <= id < old(self).store_rows().len() ==> (#[trigger] final(self).display_index()[id]) is Some,
            crate::same_store(old(self), final(self)),
            crate::same_sort(old(self), final(self)),
            crate::same_active_sets(old(self), final(self)),
            crate::same_drag(old(self), final(self)),
            crate::same_options(old(self), final(self)),
            crate::same_batcher(old(self), final(self)),
            final(self).config_spec() == old(self).config_spec(),
    {
        let ncols = self.all_columns.len();
        let sorted = sorted_projection(&self.sorted_by, self.sort_order, &self.rows, ncols);
        let ghost ent = entries_of(self.rows@);
        let ghost sent = entries_of(sorted@);
        proof {
            lemma_sort_spec_props(self.sorted_by, self.sort_order, ent);
            assert(forall|i: int| 0 <= i < ent.len() ==> (#[trigger] ent[i]).0 == i);
            lemma_perm_ids_distinct(ent, sent);
            lemma_perm_contains(ent, sent);
            assert forall|p: int| 0 <= p < sorted@.len() implies 0 <= (#[trigger] sorted@[p]).id
                < self.rows@.len() by {
                assert(sent[p] == entry_of(sorted@[p]));
                assert(sent.contains(sent[p]));
                assert(ent.contains(sent[p]));
                let i = choose|i: int| 0 <= i < ent.len() && ent[i] == sent[p];
                assert(ent[i].0 == i);
            }
            assert forall|p: int, q: int|
                0 <= p < sorted@.len() && 0 <= q < sorted@.len() && p != q implies (
            #[trigger] sorted@[p]).id != (#[trigger] sorted@[q]).id by {
                assert(sent[p] == entry_of(sorted@[p]));
                assert(sent[q] == entry_of(sorted@[q]));
                assert(sent[p].0 != sent[q].0);
            }
        }
        let n = self.rows.len();
        let idx = build_index(&sorted, n);
        proof {
            assert forall|id: int| 0 <= id < self.rows@.len() implies (#[trigger] idx@[id])
                is Some by {
                let e = ent[id];
                assert(e == entry_of(self.rows@[id]));
                assert(e.0 == id);
                assert(ent.contains(e));
                assert(sent.contains(e));
                let p = choose|p: int| 0 <= p < sent.len() && sent[p] == e;
                assert(sent[p] == entry_of(sorted@[p]));
                assert(sorted@[p].id == id);
                assert(idx@[id] == Some(p as usize));
            }
        }
        self.formatted_rows = sorted;
        self.indexed_ids = idx;
    }

    /// Re-project: rebuild the display rows from the store under the current
    /// sort state, dropping every selection.  Edits made through
    /// [`Self::modify_shown_row`] are lost; only store writes survive.
    pub fn recreate_rows(&mut self)
        requires
            old(self).inv(),
        ensures
            final(self).inv(),
            entries_of(final(self).displayed()) == sort_spec(
                old(self).sort_column(),
                old(self).sort_direction(),
                entries_of(old(self).store_rows()),
            ),
            final(self).displayed().len() == old(self).store_rows().len(),
            forall|p: int, c: int| !final(self).cell_selected(p, c),
            final(self).active_row_ids().len() == 0,
            forall|c: int|
                0 <= c < final(self).num_columns() ==> !final(self).active_column_flags()[c],
            forall|id: int|
                0 <= id < old(self).store_rows().len() ==> (#[trigger] final(self).display_index()[id]) is Some,
            crate::same_store(old(self), final(self)),
            crate::same_sort(old(self), final(self)),
            crate::same_drag(old(self), final(self)),
            crate::same_options(old(self), final(self)),
            crate::same_batcher(old(self), final(self)),
            final(self).config_spec() == old(self).config_spec(),
    {
        let ncols = self.all_columns.len();
        self.active_rows = Vec::new();
        self.active_columns = crate::bools(ncols, false);
        self.sort_rows();
    }

    /// Re-project without losing the selection: rebuild the display rows as
    /// [`Self::recreate_rows`] does, then give every row that had a selected
    /// cell the full set of currently active columns.  Per-row column detail
    /// is deliberately coarsened to the active-column set.  Edits made
    /// through [`Self::modify_shown_row`] are lost.
    pub fn recreate_rows_no_unselect(&mut self)
        requires
            old(self).inv(),
        ensures
            final(self).inv(),
            entries_of(final(self).displayed()) == sort_spec(
                old(self).sort_column(),
                old(self).sort_direction(),
                entries_of(old(self).store_rows()),
            ),
            final(self).displayed().len() == old(self).store_rows().len(),
            forall|p: int, c: int|
                0 <= p < final(self).displayed().len() && 0 <= c < final(self).num_columns()
                    ==> (#[trigger] final(self).displayed()[p].selected_columns@[c]) == (old(self).active_row_ids().contains(final(self).displayed()[p].id) && old(self).active_column_flags()[c]),
            crate::same_store(old(self), final(self)),
            crate::same_sort(old(self), final(self)),
            crate::same_active_sets(old(self), final(self)),
            crate::same_drag(old(self), final(self)),
            crate::same_options(old(self), final(self)),
            crate::same_batcher(old(self), final(self)),
            final(self).config_spec() == old(self).config_spec(),
    {
        self.sort_rows();
        let ghost disp0 = self.displayed();
        let ghost idx0 = self.display_index();
        let ghost acts = old(self).active_row_ids();
        let ghost flags = old(self).active_column_flags();
        let ncols = self.all_columns.len();
        proof {
            assert(acts.take(0) =~= Seq::<i64>::empty());
        }
        let mut k: usize = 0;
        while k < self.active_rows.len()
            invariant
                k <= self.active_rows@.len(),
                self.inv_core(),
                acts == self.active_rows@,
                flags == self.active_columns@,
                flags.len() == self.all_columns@.len(),
                ncols == self.all_columns@.len(),
                old(self).inv(),
                acts == old(self).active_row_ids(),
                flags == old(self).active_column_flags(),
                self.displayed().len() == disp0.len(),
                disp0.len() == old(self).store_rows().len(),
                self.display_index() == idx0,
                forall|id1: int| 0 <= id1 < idx0.len() ==> (#[trigger] idx0[id1]) is Some,
                forall|p: int|
                    0 <= p < disp0.len() ==> (#[trigger] self.displayed()[p]).id == disp0[p].id
                        && self.displayed()[p].row_data == disp0[p].row_data,
                forall|p: int, c: int|
                    0 <= p < disp0.len() && 0 <= c < ncols
                        ==> (#[trigger] self.displayed()[p].selected_columns@[c]) == (acts.take(
                        k as int,
                    ).contains(self.displayed()[p].id) && flags[c]),
                crate::same_store(old(self), self),
                crate::same_sort(old(self), self),
                crate::same_drag(old(self), self),
                crate::same_options(old(self), self),
                crate::same_batcher(old(self), self),
                self.config_spec() == old(self).config_spec(),
            decreases self.active_rows@.len() - k,
        {
            let id = self.active_rows[k];
            proof {
                assert(acts.contains(acts[k as int]));
                assert(crate::row_has_selection(old(self).displayed(), id));
                let (p0, c0) = choose|p0: int, c0: int|
                    0 <= p0 < old(self).displayed().len() && old(self).displayed()[p0].id == id
                        && 0 <= c0 < old(self).displayed()[p0].selected_columns@.len() && old(self).displayed()[p0].selected_columns@[c0];
                assert(0 <= id < self.display_index().len());
            }
            let n_idx = self.indexed_ids.len();
            proof {
                assert(0 <= id < n_idx);
            }
            let target = self.indexed_ids[id as usize];
            if let Some(p) = target {
                proof {
                    assert(self.indexed_ids@[id as int] == Some(p));
                    assert(self.formatted_rows@[p as int].id == id);
                }
                let row_ref = &self.formatted_rows[p];
                let data = row_ref.row_data.clone_row();
                let rid = row_ref.id;
                let bitmap = crate::copy_bools(&self.active_columns);
                let ghost before = self.formatted_rows@;
                self.formatted_rows.set(
                    p,
                    SelectableRow { row_data: data, id: rid, selected_columns: bitmap },
                );
                proof {
                    let disp_new = self.formatted_rows@;
                    assert(rid == id);
                    assert(acts.take(k + 1) =~= acts.take(k as int).push(acts[k as int]));
                    assert(acts.take(k + 1).contains(id)) by {
                        assert(acts.take(k + 1)[k as int] == id);
                    }
                    assert forall|q: int, c: int|
                        0 <= q < disp0.len() && 0 <= c < ncols implies (
                    #[trigger] disp_new[q].selected_columns@[c]) == (acts.take(k + 1).contains(
                        disp_new[q].id,
                    ) && flags[c]) by {
                        if q == p as int {
                            assert(disp_new[q].selected_columns@ == flags);
                        } else {
                            assert(disp_new[q] == before[q]);
                            // Display ids are distinct: the index maps each
                            // to its own position.
                            assert(self.indexed_ids@[before[q].id as int] == Some(q as usize));
                            assert(self.indexed_ids@[id as int] == Some(p));
                            assert(disp_new[q].id != id);
                            let y = disp_new[q].id;
                            assert(acts.take(k + 1).contains(y) == acts.take(k as int).contains(
                                y,
                            )) by {
                                if acts.take(k as int).contains(y) {
                                    let j = choose|j: int|
                                        0 <= j < k && #[trigger] acts.take(k as int)[j] == y;
                                    assert(acts.take(k + 1)[j] == y);
                                }
                                if acts.take(k + 1).contains(y) {
                                    let j = choose|j: int|
                                        0 <= j < k + 1 && #[trigger] acts.take(k + 1)[j] == y;
                                    if j < k {
                                        assert(acts.take(k as int)[j] == y);
                                    } else {
                                        assert(y == id);
                                    }
                                }
                            }
                        }
                    }
                }
            } else {
                proof {
                    assert(false);
                }
            }
            k = k + 1;
        }
        proof {
            assert(acts.take(acts.len() as int) =~= acts);
            let fin = self.displayed();
            // Row side of the active-set invariant.
            assert forall|id2: i64|
                self.active_rows@.contains(id2) <==> crate::row_has_selection(
                    self.formatted_rows@,
                    id2,
                ) by {
                if self.active_rows@.contains(id2) {
                    assert(crate::row_has_selection(old(self).displayed(), id2));
                    let (p0, c0) = choose|p0: int, c0: int|
                        0 <= p0 < old(self).displayed().len() && old(self).displayed()[p0].id
                            == id2 && 0 <= c0 < old(self).displayed()[p0].selected_columns@.len()
                            && old(self).displayed()[p0].selected_columns@[c0];
                    assert(crate::column_has_selection(old(self).displayed(), c0));
                    assert(flags[c0]);
                    assert(0 <= id2 < self.display_index().len());
                    assert(self.display_index()[id2 as int] is Some);
                    let p = self.display_index()[id2 as int].unwrap() as int;
                    assert(fin[p].id == id2);
                    assert(fin[p].selected_columns@[c0]);
                } else {
                    if crate::row_has_selection(self.formatted_rows@, id2) {
                        let (p, c) = choose|p: int, c: int|
                            0 <= p < fin.len() && fin[p].id == id2 && 0 <= c
                                < fin[p].selected_columns@.len() && fin[p].selected_columns@[c];
                        assert(acts.contains(fin[p].id));
                        assert(false);
                    }
                }
            }
            // Column side of the active-set invariant.
            assert forall|c: int|
                0 <= c < self.active_columns@.len() implies (#[trigger] self.active_columns@[c])
                == crate::column_has_selection(self.formatted_rows@, c) by {
                if self.active_columns@[c] {
                    assert(crate::column_has_selection(old(self).displayed(), c));
                    let p0 = choose|p0: int|
                        0 <= p0 < old(self).displayed().len() && 0 <= c < old(self).displayed()[p0].selected_columns@.len() && old(self).displayed()[p0].selected_columns@[c];
                    let id0 = old(self).displayed()[p0].id;
                    let c0 = c;
                    assert(crate::row_has_selection(old(self).displayed(), id0));
                    assert(acts.contains(id0));
                    assert(0 <= id0 < self.display_index().len());
                    assert(self.display_index()[id0 as int] is Some);
                    let p = self.display_index()[id0 as int].unwrap() as int;
                    assert(fin[p].id == id0);
                    assert(fin[p].selected_columns@[c]);
                } else {
                    if crate::column_has_selection(self.formatted_rows@, c) {
                        let p = choose|p: int|
                            0 <= p < fin.len() && 0 <= c < fin[p].selected_columns@.len()
                                && fin[p].selected_columns@[c];
                        assert(false);
                    }
                }
            }
        }
    }

    /// Count one mutation against the batcher; re-project, dropping the
    /// selection, when the threshold is reached.
    fn count_mutation(&mut self)
        requires
            old(self).inv(),
        ensures
            final(self).inv(),
            final(self).reload_threshold() == old(self).reload_threshold(),
            crate::same_store(old(self), final(self)),
            crate::same_sort(old(self), final(self)),
            crate::same_drag(old(self), final(self)),
            crate::same_options(old(self), final(self)),
            final(self).config_spec() == old(self).config_spec(),
            if AutoReload::spec_triggers(old(self).reload_threshold(), old(self).reload_counter()) {
                &&& final(self).reload_counter() == 0
                &&& entries_of(final(self).displayed()) == sort_spec(
                    old(self).sort_column(),
                    old(self).sort_direction(),
                    entries_of(old(self).store_rows()),
                )
                &&& final(self).displayed().len() == old(self).store_rows().len()
                &&& forall|p: int, c: int| !final(self).cell_selected(p, c)
                &&& final(self).active_row_ids().len() == 0
                &&& forall|c: int|
                    0 <= c < final(self).num_columns() ==> !final(self).active_column_flags()[c]
            } else {
                &&& final(self).reload_counter() == if old(self).reload_counter() < u32::MAX {
                    (old(self).reload_counter() + 1) as u32
                } else {
                    old(self).reload_counter()
                }
                &&& crate::same_display(old(self), final(self))
                &&& crate::same_active_sets(old(self), final(self))
            },
    {
        let reload = self.auto_reload.increment_count();
        if reload {
            self.recreate_rows();
        }
    }

    /// Add the given row to the store, if one is given, and count one
    /// mutation against the batcher.  A new row gets the next id and no
    /// selection; it is not displayed until the next re-projection, which
    /// this very call performs when it reaches the batcher's threshold.
    /// Returns the id given to the new row.
    pub fn add_modify_row(&mut self, new_row: Option<Row>) -> (new_id: Option<i64>)
        requires
            old(self).inv(),
            old(self).store_rows().len() < i64::MAX,
        ensures
            final(self).inv(),
            entries_of(final(self).store_rows()) == match new_row {
                Some(data) => entries_of(old(self).store_rows()).push(
                    (old(self).store_rows().len() as i64, data),
                ),
                None => entries_of(old(self).store_rows()),
            },
            new_id == match new_row {
                Some(data) => Some(old(self).store_rows().len() as i64),
                None => None::<i64>,
            },
            final(self).reload_threshold() == old(self).reload_threshold(),
            crate::same_sort(old(self), final(self)),
            crate::same_drag(old(self), final(self)),
            crate::same_options(old(self), final(self)),
            final(self).config_spec() == old(self).config_spec(),
            if AutoReload::spec_triggers(old(self).reload_threshold(), old(self).reload_counter()) {
                &&& final(self).reload_counter() == 0
                &&& entries_of(final(self).displayed()) == sort_spec(
                    old(self).sort_column(),
                    old(self).sort_direction(),
                    entries_of(final(self).store_rows()),
                )
                &&& final(self).displayed().len() == final(self).store_rows().len()
                &&& forall|p: int, c: int| !final(self).cell_selected(p, c)
                &&& final(self).active_row_ids().len() == 0
                &&& forall|c: int|
                    0 <= c < final(self).num_columns() ==> !final(self).active_column_flags()[c]
            } else {
                &&& final(self).reload_counter() == if old(self).reload_counter() < u32::MAX {
                    (old(self).reload_counter() + 1) as u32
                } else {
                    old(self).reload_counter()
                }
                &&& final(self).displayed() == old(self).displayed()
                &&& final(self).display_index() == match new_row {
                    Some(data) => old(self).display_index().push(None::<usize>),
                    None => old(self).display_index(),
                }
                &&& crate::same_active_sets(old(self), final(self))
            },
    {
        let mut to_return: Option<i64> = None;
        if let Some(data) = new_row {
            let id = self.last_id_used;
            let stored = SelectableRow { row_data: data, id, selected_columns: Vec::new() };
            let ghost before = self.rows@;
            self.rows.push(stored);
            self.indexed_ids.push(None);
            proof {
                assert(entries_of(self.rows@) =~= entries_of(before).push(
                    (id, self.rows@.last().row_data),
                ));
            }
            self.last_id_used = self.last_id_used + 1;
            to_return = Some(id);
        }
        self.count_mutation();
        to_return
    }

    /// Replace the stored payload of the row with the given id, and count
    /// one mutation against the batcher.  Returns whether the id names a
    /// stored row; an unknown id changes no row but still counts.  The
    /// displayed copy is not touched until the next re-projection.
    pub fn modify_row(&mut self, id: i64, row_data: Row) -> (found: bool)
        requires
            old(self).inv(),
        ensures
            final(self).inv(),
            found == (0 <= id < old(self).store_rows().len()),
            entries_of(final(self).store_rows()) == if found {
                entries_of(old(self).store_rows()).update(id as int, (id, row_data))
            } else {
                entries_of(old(self).store_rows())
            },
            final(self).reload_threshold() == old(self).reload_threshold(),
            crate::same_sort(old(self), final(self)),
            crate::same_drag(old(self), final(self)),
            crate::same_options(old(self), final(self)),
            final(self).config_spec() == old(self).config_spec(),
            if AutoReload::spec_triggers(old(self).reload_threshold(), old(self).reload_counter()) {
                &&& final(self).reload_counter() == 0
                &&& entries_of(final(self).displayed()) == sort_spec(
                    old(self).sort_column(),
                    old(self).sort_direction(),
                    entries_of(final(self).store_rows()),
                )
                &&& final(self).displayed().len() == final(self).store_rows().len()
                &&& forall|p: int, c: int| !final(self).cell_selected(p, c)
                &&& final(self).active_row_ids().len() == 0
                &&& forall|c: int|
                    0 <= c < final(self).num_columns() ==> !final(self).active_column_flags()[c]
            } else {
                &&& final(self).reload_counter() == if old(self).reload_counter() < u32::MAX {
                    (old(self).reload_counter() + 1) as u32
                } else {
                    old(self).reload_counter()
                }
                &&& crate::same_display(old(self), final(self))
                &&& crate::same_active_sets(old(self), final(self))
            },
    {
        let mut found = false;
        let n = self.rows.len();
        if 0 <= id && id < n as i64 {
            let ghost before = self.rows@;
            self.rows.set(id as usize, SelectableRow { row_data, id, selected_columns: Vec::new() });
            found = true;
            proof {
                assert(entries_of(self.rows@) =~= entries_of(before).update(
                    id as int,
                    (id, self.rows@[id as int].row_data),
                ));
            }
        }
        self.count_mutation();
        found
    }

    /// Append a row at the bottom of the display without re-sorting: the row
    /// joins the store with the next id, is shown last, and is not counted
    /// against the batcher.  Returns a copy of the new row.
    pub fn add_unsorted_row(&mut self, row: Row) -> (r: SelectableRow<Row>)
        requires
            old(self).inv(),
            old(self).store_rows().len() < i64::MAX,
        ensures
            final(self).inv(),
            r.id == old(self).store_rows().len(),
            r.row_data == row,
            r.selected_columns@.len() == old(self).num_columns(),
            forall|c: int| 0 <= c < r.selected_columns@.len() ==> !r.selected_columns@[c],
            entries_of(final(self).store_rows()) == entries_of(old(self).store_rows()).push(
                (old(self).store_rows().len() as i64, row),
            ),
            final(self).displayed().len() == old(self).displayed().len() + 1,
            forall|p: int|
                0 <= p < old(self).displayed().len() ==> final(self).displayed()[p] == old(self).displayed()[p],
            final(self).displayed().last().id == r.id,
            final(self).displayed().last().row_data == row,
            forall|c: int|
                0 <= c < final(self).num_columns() ==> !final(self).displayed().last().selected_columns@[c],
            final(self).display_index() == old(self).display_index().push(
                Some(old(self).displayed().len() as usize),
            ),
            crate::same_sort(old(self), final(self)),
            crate::same_active_sets(old(self), final(self)),
            crate::same_drag(old(self), final(self)),
            crate::same_options(old(self), final(self)),
            crate::same_batcher(old(self), final(self)),
            final(self).config_spec() == old(self).config_spec(),
    {
        let id = self.last_id_used;
        let ncols = self.all_columns.len();
        let stored = SelectableRow {
            row_data: row.clone_row(),
            id,
            selected_columns: Vec::new(),
        };
        let ghost before = self.rows@;
        self.rows.push(stored);
        proof {
            assert(entries_of(self.rows@) =~= entries_of(before).push(
                (id, self.rows@.last().row_data),
            ));
        }
        let shown = SelectableRow {
            row_data: row.clone_row(),
            id,
            selected_columns: crate::bools(ncols, false),
        };
        let ghost disp_before = self.formatted_rows@;
        self.formatted_rows.push(shown);
        self.indexed_ids.push(Some(self.formatted_rows.len() - 1));
        self.last_id_used = self.last_id_used + 1;
        let r = SelectableRow { row_data: row, id, selected_columns: crate::bools(ncols, false) };
        proof {
            let fin = self.formatted_rows@;
            assert forall|id2: i64|
                self.active_rows@.contains(id2) <==> crate::row_has_selection(fin, id2) by {
                if self.active_rows@.contains(id2) {
                    let (p0, c0) = choose|p0: int, c0: int|
                        0 <= p0 < disp_before.len() && disp_before[p0].id == id2 && 0 <= c0
                            < disp_before[p0].selected_columns@.len()
                            && disp_before[p0].selected_columns@[c0];
                    assert(fin[p0] == disp_before[p0]);
                    assert(crate::row_has_selection(fin, id2));
                }
                if crate::row_has_selection(fin, id2) {
                    let (p, c) = choose|p: int, c: int|
                        0 <= p < fin.len() && fin[p].id == id2 && 0 <= c
                            < fin[p].selected_columns@.len() && fin[p].selected_columns@[c];
                    assert(p < disp_before.len());
                    assert(crate::row_has_selection(disp_before, id2));
                }
            }
            assert forall|c: int|
                0 <= c < self.active_columns@.len() implies (#[trigger] self.active_columns@[c])
                == crate::column_has_selection(fin, c) by {
                if self.active_columns@[c] {
                    let p0 = choose|p0: int|
                        0 <= p0 < disp_before.len() && 0 <= c
                            < disp_before[p0].selected_columns@.len()
                            && disp_before[p0].selected_columns@[c];
                    assert(fin[p0] == disp_before[p0]);
                    assert(crate::column_has_selection(fin, c));
                }
                if crate::column_has_selection(fin, c) {
                    let p = choose|p: int|
                        0 <= p < fin.len() && 0 <= c < fin[p].selected_columns@.len()
                            && fin[p].selected_columns@[c];
                    assert(p < disp_before.len());
                    assert(crate::column_has_selection(disp_before, c));
                }
            }
        }
        r
    }

    /// Replace the payload of the row as displayed, leaving the store, the
    /// batcher and the selection alone.  Returns whether the id names a
    /// displayed row.  The edit lasts until the next re-projection; only
    /// [`Self::add_modify_row`] or [`Self::modify_row`] make it durable.
    pub fn modify_shown_row(&mut self, id: i64, row_data: Row) -> (found: bool)
        requires
            old(self).inv(),
        ensures
            final(self).inv(),
            found == (0 <= id < old(self).display_index().len() && old(self).display_index()[
                id as int
            ] is Some),
            !found ==> crate::same_display(old(self), final(self)),
            found ==> {
                let p = old(self).display_index()[id as int].unwrap() as int;
                &&& final(self).displayed().len() == old(self).displayed().len()
                &&& forall|q: int|
                    0 <= q < old(self).displayed().len() && q != p ==> final(self).displayed()[q]
                        == old(self).displayed()[q]
                &&& final(self).displayed()[p].id == id
                &&& final(self).displayed()[p].row_data == row_data
                &&& final(self).displayed()[p].selected_columns@ == old(self).displayed()[
                    p
                ].selected_columns@
                &&& final(self).display_index() == old(self).display_index()
            },
            crate::same_store(old(self), final(self)),
            crate::same_sort(old(self), final(self)),
            crate::same_active_sets(old(self), final(self)),
            crate::same_drag(old(self), final(self)),
            crate::same_options(old(self), final(self)),
            crate::same_batcher(old(self), final(self)),
            final(self).config_spec() == old(self).config_spec(),
    {
        if id < 0 || id >= self.indexed_ids.len() as i64 {
            return false;
        }
        let target = self.indexed_ids[id as usize];
        match target {
            None => false,
            Some(p) => {
                let row_ref = &self.formatted_rows[p];
                let rid = row_ref.id;
                let bitmap = crate::copy_bools(&row_ref.selected_columns);
                let ghost before = self.formatted_rows@;
                self.formatted_rows.set(
                    p,
                    SelectableRow { row_data, id: rid, selected_columns: bitmap },
                );
                proof {
                    let fin = self.formatted_rows@;
                    assert forall|id2: i64|
                        self.active_rows@.contains(id2) <==> crate::row_has_selection(fin, id2) by {
                        if self.active_rows@.contains(id2) {
                            let (p0, c0) = choose|p0: int, c0: int|
                                0 <= p0 < before.len() && before[p0].id == id2 && 0 <= c0
                                    < before[p0].selected_columns@.len()
                                    && before[p0].selected_columns@[c0];
                            assert(fin[p0].id == before[p0].id);
                            assert(fin[p0].selected_columns@ == before[p0].selected_columns@);
                            assert(crate::row_has_selection(fin, id2));
                        }
                        if crate::row_has_selection(fin, id2) {
                            let (p0, c0) = choose|p0: int, c0: int|
                                0 <= p0 < fin.len() && fin[p0].id == id2 && 0 <= c0
                                    < fin[p0].selected_columns@.len()
                                    && fin[p0].selected_columns@[c0];
                            assert(before[p0].id == fin[p0].id);
                            assert(before[p0].selected_columns@ == fin[p0].selected_columns@);
                            assert(crate::row_has_selection(before, id2));
                        }
                    }
                    assert forall|c: int|
                        0 <= c < self.active_columns@.len() implies (
                    #[trigger] self.active_columns@[c]) == crate::column_has_selection(fin, c) by {
                        if self.active_columns@[c] {
                            let p0 = choose|p0: int|
                                0 <= p0 < before.len() && 0 <= c
                                    < before[p0].selected_columns@.len()
                                    && before[p0].selected_columns@[c];
                            assert(fin[p0].selected_columns@ == before[p0].selected_columns@);
                            assert(crate::column_has_selection(fin, c));
                        }
                        if crate::column_has_selection(fin, c) {
                            let p0 = choose|p0: int|
                                0 <= p0 < fin.len() && 0 <= c < fin[p0].selected_columns@.len()
                                    && fin[p0].selected_columns@[c];
                            assert(before[p0].selected_columns@ == fin[p0].selected_columns@);
                            assert(crate::column_has_selection(before, c));
                        }
                    }
                }
                true
            },
        }
    }

    /// Drop every row: the store, the display rows, the display index and
    /// the selection are all emptied, and row ids start over from zero.
    pub fn clear_all_rows(&mut self)
        requires
            old(self).inv(),
        ensures
            final(self).inv(),
            final(self).store_rows().len() == 0,
            final(self).displayed().len() == 0,
            final(self).display_index().len() == 0,
            final(self).active_row_ids().len() == 0,
            forall|c: int|
                0 <= c < final(self).num_columns() ==> !final(self).active_column_flags()[c],
            crate::same_sort(old(self), final(self)),
            crate::same_drag(old(self), final(self)),
            crate::same_options(old(self), final(self)),
            crate::same_batcher(old(self), final(self)),
            final(self).config_spec() == old(self).config_spec(),
    {
        let ncols = self.all_columns.len();
        self.rows.clear();
        self.formatted_rows.clear();
        self.indexed_ids.clear();
        self.active_rows = Vec::new();
        self.active_columns = crate::bools(ncols, false);
        self.last_id_used = 0;
    }
}

} // verus!
