//! Fuzzy search over the store: every row's text for the chosen columns is
//! scored by an outside fuzzy matcher, and the rows it accepts replace the
//! display projection, sorted like any other re-projection.
//!
//! The scorer itself is the `nucleo-matcher` crate, reached only through
//! the trusted wrappers at the bottom of this file; everything the table
//! promises holds whatever the scorer answers.

use vstd::prelude::*;

verus! {

use crate::ColumnOperations;
use crate::ColumnOrdering;
use crate::RowData;
use crate::SelectableRow;
use crate::SelectableTable;
use crate::entries_of;
use crate::entry_of;
use crate::sort::lemma_perm_contains;
use crate::sort::lemma_perm_ids_distinct;
use crate::sort::lemma_sort_spec_props;
use crate::sort::sort_spec;
use vstd::string::StringExecFns;

#[verifier::external_type_specification]
#[verifier::external_body]
pub struct ExMatcher(nucleo_matcher::Matcher);

#[verifier::external_type_specification]
#[verifier::external_body]
pub struct ExPattern(nucleo_matcher::pattern::Pattern);

/// Relies on `nucleo_matcher::Matcher`'s `Default` implementation for a
/// matcher with the default configuration.
#[verifier::external_body]
pub(crate) fn default_matcher() -> nucleo_matcher::Matcher {
    nucleo_matcher::Matcher::default()
}

/// Relies on `nucleo_matcher::pattern::Pattern::parse`: builds the pattern
/// for a query, matching case-insensitively with smart normalization.
#[verifier::external_body]
fn parse_pattern(query: &str) -> nucleo_matcher::pattern::Pattern {
    nucleo_matcher::pattern::Pattern::parse(
        query,
        nucleo_matcher::pattern::CaseMatching::Ignore,
        nucleo_matcher::pattern::Normalization::Smart,
    )
}

/// Relies on `nucleo_matcher::pattern::Pattern::score`: whether the pattern
/// matches the text at all, under the given matcher's configuration.
#[verifier::external_body]
fn score_matches(
    pattern: &nucleo_matcher::pattern::Pattern,
    text: &str,
    matcher: &mut nucleo_matcher::Matcher,
) -> bool {
    let mut buf: Vec<char> = Vec::new();
    pattern.score(nucleo_matcher::Utf32Str::new(text, &mut buf), matcher).is_some()
}

/// The entries of `s` below `i` whose flag in `kept` is set, in order.
pub open spec fn masked<T>(s: Seq<T>, kept: Seq<bool>, i: int) -> Seq<T>
    decreases i,
{
    if i <= 0 {
        Seq::empty()
    } else if kept[i - 1] {
        masked(s, kept, i - 1).push(s[i - 1])
    } else {
        masked(s, kept, i - 1)
    }
}

/// `masked` reads only the flags below `i`.
proof fn lemma_masked_agrees<T>(s: Seq<T>, k1: Seq<bool>, k2: Seq<bool>, i: int)
    requires
        forall|j: int| 0 <= j < i ==> k1[j] == k2[j],
    ensures
        masked(s, k1, i) == masked(s, k2, i),
    decreases i,
{
    if i > 0 {
        lemma_masked_agrees(s, k1, k2, i - 1);
    }
}

/// Unset flags at the tail add nothing.
proof fn lemma_masked_false_suffix<T>(s: Seq<T>, kept: Seq<bool>, i: int, n: int)
    requires
        0 <= i <= n,
        forall|j: int| i <= j < n ==> !kept[j],
    ensures
        masked(s, kept, n) == masked(s, kept, i),
    decreases n - i,
{
    if i < n {
        lemma_masked_false_suffix(s, kept, i, n - 1);
    }
}

impl<Row, F, Conf> SelectableTable<Row, F, Conf> where
    Row: RowData,
    F: Copy + ColumnOperations<Row> + ColumnOrdering<Row>,
    Conf: Default,
 {
    /// Replace the fuzzy matcher, builder style.
    pub fn matcher(self, matcher: nucleo_matcher::Matcher) -> (r: Self)
        ensures
            r.matcher_spec() == matcher,
            crate::same_display(&self, &r),
            crate::same_store(&self, &r),
            crate::same_sort(&self, &r),
            crate::same_active_sets(&self, &r),
            crate::same_drag(&self, &r),
            crate::same_options(&self, &r),
            crate::same_batcher(&self, &r),
            r.config_spec() == self.config_spec(),
            self.inv() ==> r.inv(),
    {
        let mut s = self;
        s.set_matcher(matcher);
        s
    }

    /// Replace the fuzzy matcher.
    pub fn set_matcher(&mut self, matcher: nucleo_matcher::Matcher)
        ensures
            final(self).matcher_spec() == matcher,
            crate::same_display(old(self), final(self)),
            crate::same_store(old(self), final(self)),
            crate::same_sort(old(self), final(self)),
            crate::same_active_sets(old(self), final(self)),
            crate::same_drag(old(self), final(self)),
            crate::same_options(old(self), final(self)),
            crate::same_batcher(old(self), final(self)),
            final(self).config_spec() == old(self).config_spec(),
            old(self).inv() ==> final(self).inv(),
    {
        self.matcher = matcher;
    }

    /// Show only the rows the fuzzy scorer accepts for the query, read over
    /// the texts of the listed columns, sorted like any re-projection and
    /// with the selection dropped.  An empty column list, an empty query or
    /// a limit of zero changes nothing at all.  With a limit, scanning stops
    /// at the first `limit` accepted rows in store order — not the best
    /// `limit` matches.  A plain re-projection restores the unfiltered view.
    pub fn search_and_show(
        &mut self,
        column_list: &Vec<F>,
        query: &str,
        limit: Option<usize>,
        pattern: Option<nucleo_matcher::pattern::Pattern>,
    )
        requires
            old(self).inv(),
        ensures
            final(self).inv(),
            column_list@.len() == 0 || query@.len() == 0 || limit == Some(0usize) ==> *final(self)
                == *old(self),
            !(column_list@.len() == 0 || query@.len() == 0 || limit == Some(0usize)) ==> {
                &&& exists|kept: Seq<bool>|
                    kept.len() == old(self).store_rows().len() && entries_of(
                        final(self).displayed(),
                    ) == sort_spec(
                        old(self).sort_column(),
                        old(self).sort_direction(),
                        masked(entries_of(old(self).store_rows()), kept, old(
                            self,
                        ).store_rows().len() as int),
                    )
                &&& match limit {
                    Some(l) => final(self).displayed().len() <= l,
                    None => true,
                }
                &&& forall|p: int, c: int| !final(self).cell_selected(p, c)
                &&& final(self).active_row_ids().len() == 0
                &&& forall|c: int|
                    0 <= c < final(self).num_columns() ==> !final(self).active_column_flags()[c]
                &&& crate::same_store(old(self), final(self))
                &&& crate::same_sort(old(self), final(self))
                &&& crate::same_drag(old(self), final(self))
                &&& crate::same_options(old(self), final(self))
                &&& crate::same_batcher(old(self), final(self))
                &&& final(self).config_spec() == old(self).config_spec()
            },
    {
        if query.is_empty() {
            return ;
        }
        if column_list.len() == 0 {
            return ;
        }
        if let Some(l) = limit {
            if l == 0 {
                return ;
            }
        }
        let pat = match pattern {
            Some(p) => p,
            None => parse_pattern(query),
        };
        let ghost ent = entries_of(self.rows@);
        let n = self.rows.len();
        let mut candidates: Vec<SelectableRow<Row>> = Vec::new();
        let ghost mut kept: Seq<bool> = Seq::empty();
        let mut i: usize = 0;
        let mut stop = false;
        while i < n && !stop
            invariant
                i <= n,
                n == self.rows@.len(),
                self.inv(),
                ent == entries_of(self.rows@),
                crate::same_store(old(self), self),
                crate::same_display(old(self), self),
                crate::same_sort(old(self), self),
                crate::same_active_sets(old(self), self),
                crate::same_drag(old(self), self),
                crate::same_options(old(self), self),
                crate::same_batcher(old(self), self),
                self.config_spec() == old(self).config_spec(),
                self.last_id_used == old(self).last_id_used,
                kept.len() == i,
                entries_of(candidates@) == masked(ent, kept, i as int),
                forall|j: int|
                    0 <= j < candidates@.len() ==> 0 <= (#[trigger] candidates@[j]).id < i,
                forall|j1: int, j2: int|
                    0 <= j1 < j2 < candidates@.len() ==> (#[trigger] candidates@[j1]).id < (
                    #[trigger] candidates@[j2]).id,
                match limit {
                    Some(l) => candidates@.len() <= l && (stop <==> candidates@.len() == l),
                    None => !stop,
                },
            decreases n - i,
        {
            let row = &self.rows[i];
            let mut text = String::new();
            let mut k: usize = 0;
            while k < column_list.len()
                invariant
                    k <= column_list@.len(),
                decreases column_list@.len() - k,
            {
                let part = column_list[k].column_text(&row.row_data);
                text.append(part.as_str());
                text.append(" ");
                k = k + 1;
            }
            let matched = score_matches(&pat, text.as_str(), &mut self.matcher);
            let ghost before = candidates@;
            if matched {
                let data = row.row_data.clone_row();
                let rid = row.id;
                candidates.push(
                    SelectableRow { row_data: data, id: rid, selected_columns: Vec::new() },
                );
                proof {
                    let kold = kept;
                    kept = kept.push(true);
                    lemma_masked_agrees(ent, kept, kold, i as int);
                    assert(kept[i as int]);
                    assert(ent[i as int] == entry_of(self.rows@[i as int]));
                    assert(entries_of(candidates@) =~= entries_of(before).push(
                        entry_of(candidates@.last()),
                    ));
                    assert(entries_of(candidates@) == masked(ent, kept, i + 1));
                }
                if let Some(l) = limit {
                    if candidates.len() >= l {
                        stop = true;
                    }
                }
            } else {
                proof {
                    let kold = kept;
                    kept = kept.push(false);
                    lemma_masked_agrees(ent, kept, kold, i as int);
                    assert(!kept[i as int]);
                    assert(entries_of(candidates@) == masked(ent, kept, i + 1));
                }
            }
            i = i + 1;
        }
        proof {
            let ghost kept_full = kept + Seq::new((n - i) as nat, |j: int| false);
            lemma_masked_agrees(ent, kept, kept_full, i as int);
            lemma_masked_false_suffix(ent, kept_full, i as int, n as int);
            kept = kept_full;
            assert(kept.len() == n);
            assert(entries_of(candidates@) == masked(ent, kept, n as int));
        }
        let ncols = self.all_columns.len();
        let sorted = crate::row_modification::sorted_projection(
            &self.sorted_by,
            self.sort_order,
            &candidates,
            ncols,
        );
        let ghost cent = entries_of(candidates@);
        let ghost sent = entries_of(sorted@);
        proof {
            lemma_sort_spec_props(self.sort_column(), self.sort_direction(), cent);
            lemma_perm_ids_distinct(cent, sent);
            lemma_perm_contains(cent, sent);
            assert forall|p: int| 0 <= p < sorted@.len() implies 0 <= (#[trigger] sorted@[p]).id
                < n by {
                assert(sent[p] == entry_of(sorted@[p]));
                assert(sent.contains(sent[p]));
                assert(cent.contains(sent[p]));
                let j = choose|j: int| 0 <= j < cent.len() && cent[j] == sent[p];
                assert(cent[j] == entry_of(candidates@[j]));
            }
            assert forall|p: int, q: int|
                0 <= p < sorted@.len() && 0 <= q < sorted@.len() && p != q implies (
            #[trigger] sorted@[p]).id != (#[trigger] sorted@[q]).id by {
                assert(sent[p] == entry_of(sorted@[p]));
                assert(sent[q] == entry_of(sorted@[q]));
                assert(sent[p].0 != sent[q].0);
            }
        }
        let idx = crate::row_modification::build_index(&sorted, n);
        self.formatted_rows = sorted;
        self.indexed_ids = idx;
        self.active_rows = Vec::new();
        self.active_columns = crate::bools(ncols, false);
        proof {
            let cells = masked(entries_of(old(self).store_rows()), kept, old(
                self,
            ).store_rows().len() as int);
            assert(kept.len() == old(self).store_rows().len());
            assert(entries_of(self.displayed()) == sort_spec(
                old(self).sort_column(),
                old(self).sort_direction(),
                cells,
            ));
        }
    }
}

} // verus!
