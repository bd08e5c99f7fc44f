//! The mathematical meaning of re-projection: a stable insertion sort of the
//! store's rows under the current sort column and direction.
//!
//! The display order a re-projection must produce is defined here as a spec
//! function, `sort_spec`, so that every re-projecting operation can promise
//! exactly which sequence it builds.  The lemmas establish what callers need
//! of it: it permutes its input, it is sorted whenever the column's
//! comparator is a total preorder, and it keeps distinct row ids distinct.

use vstd::prelude::*;

verus! {

use crate::ColumnOrdering;
use crate::SortOrder;
use vstd::seq_lib::group_to_multiset_ensures;

/// The display-order "sorts no later than" relation on payloads: the
/// column's own relation, reversed for descending order.
pub open spec fn le_by<Row, F: ColumnOrdering<Row>>(
    by: F,
    order: SortOrder,
    a: Row,
    b: Row,
) -> bool {
    match order {
        SortOrder::Ascending => by.le_spec(a, b),
        SortOrder::Descending => by.le_spec(b, a),
    }
}

/// `le_by` lifted to store entries (id and payload pairs): only the payload
/// matters for ordering.
pub open spec fn entry_le<Row, F: ColumnOrdering<Row>>(
    by: F,
    order: SortOrder,
    a: (i64, Row),
    b: (i64, Row),
) -> bool {
    le_by(by, order, a.1, b.1)
}

/// The sequence is sorted for the given column and direction.
pub open spec fn is_sorted_by<Row, F: ColumnOrdering<Row>>(
    by: F,
    order: SortOrder,
    s: Seq<(i64, Row)>,
) -> bool {
    forall|i: int, j: int|
        0 <= i < j < s.len() ==> entry_le(by, order, #[trigger] s[i], #[trigger] s[j])
}

/// Where a stable insertion puts `x`: after every element it is not
/// strictly ahead of, before the maximal suffix of elements strictly ahead
/// of it.
pub open spec fn insert_sorted<Row, F: ColumnOrdering<Row>>(
    by: F,
    order: SortOrder,
    s: Seq<(i64, Row)>,
    x: (i64, Row),
) -> Seq<(i64, Row)>
    decreases s.len(),
{
    if s.len() == 0 {
        seq![x]
    } else if entry_le(by, order, s.last(), x) {
        s.push(x)
    } else {
        insert_sorted(by, order, s.drop_last(), x).push(s.last())
    }
}

/// The display order a re-projection produces: each entry of `s`, in store
/// order, inserted stably into the sorted result built so far.
pub open spec fn sort_spec<Row, F: ColumnOrdering<Row>>(
    by: F,
    order: SortOrder,
    s: Seq<(i64, Row)>,
) -> Seq<(i64, Row)>
    decreases s.len(),
{
    if s.len() == 0 {
        Seq::empty()
    } else {
        insert_sorted(by, order, sort_spec(by, order, s.drop_last()), s.last())
    }
}

/// Transitivity of the display-order relation, from the column's law.
pub proof fn le_by_trans<Row, F: ColumnOrdering<Row>>(
    by: F,
    order: SortOrder,
    a: Row,
    b: Row,
    c: Row,
)
    requires
        le_by(by, order, a, b),
        le_by(by, order, b, c),
    ensures
        le_by(by, order, a, c),
{
    match order {
        SortOrder::Ascending => by.le_transitive(a, b, c),
        SortOrder::Descending => by.le_transitive(c, b, a),
    }
}

/// Totality of the display-order relation, from the column's law.
pub proof fn le_by_total<Row, F: ColumnOrdering<Row>>(by: F, order: SortOrder, a: Row, b: Row)
    ensures
        le_by(by, order, a, b) || le_by(by, order, b, a),
{
    match order {
        SortOrder::Ascending => by.le_total(a, b),
        SortOrder::Descending => by.le_total(b, a),
    }
}

/// Inserting one entry grows the sequence by one and adds exactly that
/// entry to its contents.
pub proof fn lemma_insert_sorted_perm<Row, F: ColumnOrdering<Row>>(
    by: F,
    order: SortOrder,
    s: Seq<(i64, Row)>,
    x: (i64, Row),
)
    ensures
        insert_sorted(by, order, s, x).len() == s.len() + 1,
        insert_sorted(by, order, s, x).to_multiset() == s.to_multiset().insert(x),
    decreases s.len(),
{
    broadcast use group_to_multiset_ensures;

    if s.len() == 0 {
        assert(insert_sorted(by, order, s, x) =~= Seq::empty().push(x));
        assert(s.to_multiset() =~= Seq::<(i64, Row)>::empty().to_multiset());
        assert(insert_sorted(by, order, s, x).to_multiset() =~= s.to_multiset().insert(x));
    } else if entry_le(by, order, s.last(), x) {
        assert(insert_sorted(by, order, s, x).to_multiset() =~= s.to_multiset().insert(x));
    } else {
        let dl = s.drop_last();
        let last = s.last();
        lemma_insert_sorted_perm(by, order, dl, x);
        assert(s =~= dl.push(last));
        assert(s.to_multiset() == dl.push(last).to_multiset());
        assert(insert_sorted(by, order, s, x).to_multiset() == insert_sorted(
            by,
            order,
            dl,
            x,
        ).to_multiset().insert(last));
        assert(dl.to_multiset().insert(x).insert(last) =~= dl.to_multiset().insert(last).insert(
            x,
        ));
    }
}

/// Inserting into a sorted sequence keeps it sorted, given the column's
/// laws.
pub proof fn lemma_insert_sorted_sorted<Row, F: ColumnOrdering<Row>>(
    by: F,
    order: SortOrder,
    s: Seq<(i64, Row)>,
    x: (i64, Row),
)
    requires
        is_sorted_by(by, order, s),
    ensures
        is_sorted_by(by, order, insert_sorted(by, order, s, x)),
    decreases s.len(),
{
    broadcast use group_to_multiset_ensures;

    let r = insert_sorted(by, order, s, x);
    if s.len() == 0 {
        assert(r =~= seq![x]);
    } else if entry_le(by, order, s.last(), x) {
        assert forall|i: int, j: int| 0 <= i < j < r.len() implies entry_le(
            by,
            order,
            #[trigger] r[i],
            #[trigger] r[j],
        ) by {
            if j < s.len() {
            } else {
                // r[j] is x; everything in s is no later than s.last(),
                // which is no later than x.
                if i < s.len() - 1 {
                    assert(entry_le(by, order, s[i], s.last()));
                    le_by_trans(by, order, s[i].1, s.last().1, x.1);
                }
            }
        }
    } else {
        let dl = s.drop_last();
        let last = s.last();
        le_by_total(by, order, last.1, x.1);
        let front = insert_sorted(by, order, dl, x);
        lemma_insert_sorted_sorted(by, order, dl, x);
        lemma_insert_sorted_perm(by, order, dl, x);
        // Every element of `front` is an element of `dl`, or `x`; either
        // way it sorts no later than `last`.
        assert forall|k: int| 0 <= k < front.len() implies entry_le(
            by,
            order,
            #[trigger] front[k],
            last,
        ) by {
            assert(front.contains(front[k]));
            assert(front.to_multiset().count(front[k]) > 0);
            if front[k] != x {
                assert(dl.to_multiset().count(front[k]) > 0);
                assert(dl.contains(front[k]));
                let i = choose|i: int| 0 <= i < dl.len() && dl[i] == front[k];
                assert(entry_le(by, order, s[i], s[s.len() - 1]));
            }
        }
        assert forall|i: int, j: int| 0 <= i < j < r.len() implies entry_le(
            by,
            order,
            #[trigger] r[i],
            #[trigger] r[j],
        ) by {
            if j < front.len() {
            } else {
                assert(r[j] == last);
                assert(entry_le(by, order, front[i], last));
            }
        }
    }
}

/// `sort_spec` permutes its input and sorts it.
pub proof fn lemma_sort_spec_props<Row, F: ColumnOrdering<Row>>(
    by: F,
    order: SortOrder,
    s: Seq<(i64, Row)>,
)
    ensures
        sort_spec(by, order, s).len() == s.len(),
        sort_spec(by, order, s).to_multiset() == s.to_multiset(),
        is_sorted_by(by, order, sort_spec(by, order, s)),
    decreases s.len(),
{
    broadcast use group_to_multiset_ensures;

    if s.len() == 0 {
        assert(sort_spec(by, order, s).to_multiset() =~= s.to_multiset());
    } else {
        let dl = s.drop_last();
        let last = s.last();
        lemma_sort_spec_props(by, order, dl);
        lemma_insert_sorted_perm(by, order, sort_spec(by, order, dl), last);
        lemma_insert_sorted_sorted(by, order, sort_spec(by, order, dl), last);
        assert(s =~= dl.push(last));
        assert(s.to_multiset() == dl.push(last).to_multiset());
        assert(sort_spec(by, order, s).to_multiset() == dl.to_multiset().insert(last));
    }
}

/// Sequences with equal contents contain the same elements and have equal
/// length.
pub proof fn lemma_perm_contains<T>(a: Seq<T>, b: Seq<T>)
    requires
        a.to_multiset() == b.to_multiset(),
    ensures
        a.len() == b.len(),
        forall|x: T| a.contains(x) <==> b.contains(x),
{
    broadcast use group_to_multiset_ensures;

    assert(a.len() == a.to_multiset().len());
    assert(b.len() == b.to_multiset().len());
    assert forall|x: T| a.contains(x) <==> b.contains(x) by {
        assert(a.contains(x) <==> a.to_multiset().count(x) > 0);
        assert(b.contains(x) <==> b.to_multiset().count(x) > 0);
    }
}

/// A permutation of a store's entries keeps row ids distinct: if `a` gives
/// every id to at most one position, so does any reordering of it.
pub proof fn lemma_perm_ids_distinct<Row>(a: Seq<(i64, Row)>, b: Seq<(i64, Row)>)
    requires
        a.to_multiset() == b.to_multiset(),
        forall|i: int, j: int| 0 <= i < a.len() && 0 <= j < a.len() && i != j ==> (#[trigger] a[i]).0
            != (#[trigger] a[j]).0,
    ensures
        forall|p: int, q: int| 0 <= p < b.len() && 0 <= q < b.len() && p != q ==> (#[trigger] b[p]).0
            != (#[trigger] b[q]).0,
{
    broadcast use group_to_multiset_ensures;

    assert(a.no_duplicates());
    a.lemma_multiset_has_no_duplicates();
    b.lemma_multiset_has_no_duplicates_conv();
    assert(b.no_duplicates());
    assert forall|p: int, q: int|
        0 <= p < b.len() && 0 <= q < b.len() && p != q implies (#[trigger] b[p]).0
        != (#[trigger] b[q]).0 by {
        if b[p].0 == b[q].0 {
            assert(b.contains(b[p]));
            assert(b.contains(b[q]));
            assert(b.to_multiset().count(b[p]) > 0);
            assert(b.to_multiset().count(b[q]) > 0);
            assert(a.contains(b[p]));
            assert(a.contains(b[q]));
            let i = choose|i: int| 0 <= i < a.len() && a[i] == b[p];
            let j = choose|j: int| 0 <= j < a.len() && a[j] == b[q];
            assert(a[i].0 == a[j].0);
            assert(i == j);
            assert(b[p] == b[q]);
        }
    }
}

/// Characterizes `insert_sorted` by the insertion position an
/// implementation finds: if everything at or after `pos` is strictly ahead
/// of `x` and the entry just before `pos` is not, then the insertion puts
/// `x` exactly at `pos`.
pub proof fn lemma_insert_sorted_at<Row, F: ColumnOrdering<Row>>(
    by: F,
    order: SortOrder,
    s: Seq<(i64, Row)>,
    x: (i64, Row),
    pos: int,
)
    requires
        0 <= pos <= s.len(),
        forall|j: int| pos <= j < s.len() ==> !entry_le(by, order, #[trigger] s[j], x),
        pos > 0 ==> entry_le(by, order, s[pos - 1], x),
    ensures
        insert_sorted(by, order, s, x) == s.insert(pos, x),
    decreases s.len(),
{
    if pos == s.len() {
        if s.len() == 0 {
            assert(insert_sorted(by, order, s, x) =~= s.insert(pos, x));
        } else {
            assert(entry_le(by, order, s.last(), x));
            assert(s.push(x) =~= s.insert(pos, x));
        }
    } else {
        assert(!entry_le(by, order, s[s.len() - 1], x));
        let dl = s.drop_last();
        lemma_insert_sorted_at(by, order, dl, x, pos);
        assert(insert_sorted(by, order, s, x) == dl.insert(pos, x).push(s.last()));
        assert(dl.insert(pos, x).push(s.last()) =~= s.insert(pos, x));
    }
}

} // verus!
