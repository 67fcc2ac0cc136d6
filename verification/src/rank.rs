//! Filtering and ordering of the entries against the typed query.

use crate::entry::{copy_items, views, ScoredCompletionItem, ScoredView};
use crate::fuzzy::{chars_of, is_subsequence, match_chars, positions_of, score_of};
use crate::scorer::skim_outcome;
use vstd::prelude::*;

verus! {

/// `a` is listed before `b`: it has the higher score, or the same score and
/// the earlier place in the server's list.
pub open spec fn outranks(a: ScoredView, b: ScoredView) -> bool {
    a.score > b.score || (a.score == b.score && a.index < b.index)
}

/// No item of the list outranks one that stands before it.
pub open spec fn is_ranked(items: Seq<ScoredView>) -> bool {
    forall|i: int, j: int|
        0 <= i < j < items.len() ==> !outranks(#[trigger] items[j], #[trigger] items[i])
}

/// `item` with the score and the matched offsets of its label against
/// `query`.
pub open spec fn rescored(item: ScoredView, query: Seq<char>) -> ScoredView {
    let outcome = skim_outcome(item.item.label, query);
    ScoredView {
        item: item.item,
        index: item.index,
        score: score_of(outcome),
        indices: positions_of(query, item.item.label, outcome),
    }
}

/// The items of `all` whose label holds `query` as a subsequence, rescored,
/// in the order of `all`.
pub open spec fn survivors(all: Seq<ScoredView>, query: Seq<char>) -> Seq<ScoredView>
    decreases all.len(),
{
    if all.len() == 0 {
        Seq::empty()
    } else if is_subsequence(query, all.last().item.label) {
        survivors(all.drop_last(), query).push(rescored(all.last(), query))
    } else {
        survivors(all.drop_last(), query)
    }
}

/// What `rank` makes of `all` under `query`: `all` itself under the empty
/// query, else the survivors in ranked order.
pub open spec fn is_ranking(all: Seq<ScoredView>, query: Seq<char>, ranked: Seq<ScoredView>) -> bool {
    if query.len() == 0 {
        ranked == all
    } else {
        is_ranked(ranked) && ranked.to_multiset() == survivors(all, query).to_multiset()
    }
}

/// `item` is an item of `all` whose label holds `query`, rescored.
pub open spec fn is_survivor_of(all: Seq<ScoredView>, query: Seq<char>, item: ScoredView) -> bool {
    exists|k: int|
        0 <= k < all.len() && is_subsequence(query, (#[trigger] all[k]).item.label) && item
            == rescored(all[k], query)
}

/// No two items of the list come from the same place of the server's list.
pub open spec fn distinct_places(items: Seq<ScoredView>) -> bool {
    forall|i: int, j: int|
        0 <= i < j < items.len() ==> (#[trigger] items[i]).index != (#[trigger] items[j]).index
}

/// The places of the items grow along the list.
pub open spec fn rising_places(items: Seq<ScoredView>) -> bool {
    forall|i: int, j: int|
        0 <= i < j < items.len() ==> (#[trigger] items[i]).index < (#[trigger] items[j]).index
}

/// The survivors are the matching items, each rescored, and no others.
pub proof fn lemma_survivors_are_the_matches(all: Seq<ScoredView>, query: Seq<char>)
    ensures
        survivors(all, query).len() <= all.len(),
        forall|item: ScoredView| #[trigger]
            survivors(all, query).contains(item) <==> is_survivor_of(all, query, item),
    decreases all.len(),
{
    if all.len() > 0 {
        let rest = all.drop_last();
        let last = all.last();
        lemma_survivors_are_the_matches(rest, query);
        assert forall|item: ScoredView| #[trigger]
            survivors(all, query).contains(item) <==> is_survivor_of(all, query, item) by {
            let kept = is_subsequence(query, last.item.label);
            if survivors(all, query).contains(item) {
                let at = choose|i: int|
                    0 <= i < survivors(all, query).len() && survivors(all, query)[i] == item;
                if kept && at == survivors(rest, query).len() {
                    assert(all[all.len() - 1] == last);
                } else {
                    assert(survivors(rest, query)[at] == item);
                    assert(survivors(rest, query).contains(item));
                    let k = choose|k: int|
                        0 <= k < rest.len() && is_subsequence(query, (#[trigger] rest[k]).item.label)
                            && item == rescored(rest[k], query);
                    assert(all[k] == rest[k]);
                }
            }
            if is_survivor_of(all, query, item) {
                let k = choose|k: int|
                    0 <= k < all.len() && is_subsequence(query, (#[trigger] all[k]).item.label)
                        && item == rescored(all[k], query);
                if k < rest.len() {
                    assert(rest[k] == all[k]);
                    assert(is_survivor_of(rest, query, item));
                    assert(survivors(rest, query).contains(item));
                    let at = choose|i: int|
                        0 <= i < survivors(rest, query).len() && survivors(rest, query)[i] == item;
                    assert(survivors(all, query)[at] == item);
                } else {
                    assert(survivors(all, query)[survivors(rest, query).len() as int] == item);
                }
            }
        }
    }
}

/// Where the places of the items grow along `all`, they grow along the
/// survivors too, and stay below the bound that held of `all`.
pub proof fn lemma_survivors_keep_rising(all: Seq<ScoredView>, query: Seq<char>, bound: int)
    requires
        rising_places(all),
        forall|i: int| 0 <= i < all.len() ==> (#[trigger] all[i]).index < bound,
    ensures
        rising_places(survivors(all, query)),
        forall|i: int|
            0 <= i < survivors(all, query).len() ==> (#[trigger] survivors(all, query)[i]).index
                < bound,
    decreases all.len(),
{
    if all.len() > 0 {
        let rest = all.drop_last();
        let last = all.last();
        assert forall|i: int| 0 <= i < rest.len() implies (#[trigger] rest[i]).index
            < last.index by {
            assert(rest[i] == all[i]);
            assert(all[all.len() - 1] == last);
        }
        assert(rising_places(rest)) by {
            assert forall|i: int, j: int| 0 <= i < j < rest.len() implies (#[trigger] rest[i]).index
                < (#[trigger] rest[j]).index by {
                assert(rest[i] == all[i] && rest[j] == all[j]);
            }
        }
        lemma_survivors_keep_rising(rest, query, last.index as int);
        assert(all[all.len() - 1] == last);
    }
}

/// Two ranked lists of the same items, none of which shares its place with
/// another, are one list.
pub proof fn lemma_ranked_unique(a: Seq<ScoredView>, b: Seq<ScoredView>)
    requires
        is_ranked(a),
        is_ranked(b),
        distinct_places(a),
        a.to_multiset() == b.to_multiset(),
    ensures
        a == b,
    decreases a.len(),
{
    vstd::seq_lib::to_multiset_len(a);
    vstd::seq_lib::to_multiset_len(b);
    if a.len() == 0 {
        assert(a =~= b);
    } else {
        vstd::seq_lib::to_multiset_contains(a, a[0]);
        vstd::seq_lib::to_multiset_contains(b, a[0]);
        vstd::seq_lib::to_multiset_contains(a, b[0]);
        vstd::seq_lib::to_multiset_contains(b, b[0]);
        assert(a.contains(a[0]));
        assert(b.contains(a[0]));
        assert(b.contains(b[0]));
        assert(a.contains(b[0]));
        let k = choose|k: int| 0 <= k < b.len() && b[k] == a[0];
        let m = choose|m: int| 0 <= m < a.len() && a[m] == b[0];
        if m > 0 {
            assert(!outranks(a[m], a[0]));
            assert(a[0].index != a[m].index);
            assert(outranks(a[0], a[m]));
            if k > 0 {
                assert(!outranks(b[k], b[0]));
            }
        }
        assert(a[0] == b[0]);
        let a_rest = a.remove(0);
        let b_rest = b.remove(0);
        vstd::seq_lib::to_multiset_remove(a, 0);
        vstd::seq_lib::to_multiset_remove(b, 0);
        assert(is_ranked(a_rest)) by {
            assert forall|i: int, j: int| 0 <= i < j < a_rest.len() implies !outranks(
                #[trigger] a_rest[j],
                #[trigger] a_rest[i],
            ) by {
                assert(a_rest[i] == a[i + 1] && a_rest[j] == a[j + 1]);
            }
        }
        assert(is_ranked(b_rest)) by {
            assert forall|i: int, j: int| 0 <= i < j < b_rest.len() implies !outranks(
                #[trigger] b_rest[j],
                #[trigger] b_rest[i],
            ) by {
                assert(b_rest[i] == b[i + 1] && b_rest[j] == b[j + 1]);
            }
        }
        assert(distinct_places(a_rest)) by {
            assert forall|i: int, j: int| 0 <= i < j < a_rest.len() implies (
            #[trigger] a_rest[i]).index != (#[trigger] a_rest[j]).index by {
                assert(a_rest[i] == a[i + 1] && a_rest[j] == a[j + 1]);
            }
        }
        lemma_ranked_unique(a_rest, b_rest);
        assert forall|i: int| 0 <= i < a.len() implies a[i] == b[i] by {
            if i > 0 {
                assert(a_rest[i - 1] == a[i]);
                assert(b_rest[i - 1] == b[i]);
            }
        }
        assert(a =~= b);
    }
}

/// The ranking of a list whose places grow along it is determined: `rank`
/// can return one list only.
pub proof fn lemma_ranking_unique(
    all: Seq<ScoredView>,
    query: Seq<char>,
    a: Seq<ScoredView>,
    b: Seq<ScoredView>,
)
    requires
        rising_places(all),
        is_ranking(all, query, a),
        is_ranking(all, query, b),
    ensures
        a == b,
{
    if query.len() > 0 {
        let kept = survivors(all, query);
        assert forall|i: int| 0 <= i < all.len() implies (#[trigger] all[i]).index
            < usize::MAX + 1 by {}
        lemma_survivors_keep_rising(all, query, usize::MAX + 1);
        assert(kept.no_duplicates()) by {
            assert forall|i: int, j: int| 0 <= i < kept.len() && 0 <= j < kept.len() && i
                != j implies kept[i] != kept[j] by {
                if i < j {
                    assert(kept[i].index < kept[j].index);
                } else {
                    assert(kept[j].index < kept[i].index);
                }
            }
        }
        kept.lemma_multiset_has_no_duplicates();
        a.lemma_multiset_has_no_duplicates_conv();
        assert(distinct_places(a)) by {
            assert forall|i: int, j: int| 0 <= i < j < a.len() implies (#[trigger] a[i]).index != (
            #[trigger] a[j]).index by {
                assert(a.contains(a[i]) && a.contains(a[j]));
                vstd::seq_lib::to_multiset_contains(a, a[i]);
                vstd::seq_lib::to_multiset_contains(a, a[j]);
                vstd::seq_lib::to_multiset_contains(kept, a[i]);
                vstd::seq_lib::to_multiset_contains(kept, a[j]);
                assert(kept.contains(a[i]) && kept.contains(a[j]));
                let p = choose|p: int| 0 <= p < kept.len() && kept[p] == a[i];
                let q = choose|q: int| 0 <= q < kept.len() && kept[q] == a[j];
                if p < q {
                    assert(kept[p].index < kept[q].index);
                } else if q < p {
                    assert(kept[q].index < kept[p].index);
                }
            }
        }
        lemma_ranked_unique(a, b);
    }
}

/// A ranking under a query holds the matching items of `all`, each once and
/// rescored, and nothing else.
pub proof fn lemma_ranking_holds_the_matches(
    all: Seq<ScoredView>,
    query: Seq<char>,
    ranked: Seq<ScoredView>,
)
    requires
        query.len() > 0,
        is_ranking(all, query, ranked),
    ensures
        ranked.len() <= all.len(),
        forall|item: ScoredView| #[trigger]
            ranked.contains(item) <==> is_survivor_of(all, query, item),
{
    lemma_survivors_are_the_matches(all, query);
    vstd::seq_lib::to_multiset_len(ranked);
    vstd::seq_lib::to_multiset_len(survivors(all, query));
    assert forall|item: ScoredView| #[trigger]
        ranked.contains(item) <==> is_survivor_of(all, query, item) by {
        vstd::seq_lib::to_multiset_contains(ranked, item);
        vstd::seq_lib::to_multiset_contains(survivors(all, query), item);
        assert(ranked.contains(item) <==> survivors(all, query).contains(item));
    }
}

/// `slot` is where `item` goes into `ranked`: before the first item that it
/// outranks, or at the end where it outranks none.
pub open spec fn is_slot(ranked: Seq<ScoredView>, item: ScoredView, slot: int) -> bool {
    &&& 0 <= slot <= ranked.len()
    &&& forall|k: int| 0 <= k < slot ==> !outranks(item, #[trigger] ranked[k])
    &&& slot < ranked.len() ==> outranks(item, ranked[slot])
}

/// Puts `item` into the ranked list `ranked`, behind every item that it does
/// not outrank.
pub fn insert_ranked(ranked: &mut Vec<ScoredCompletionItem>, item: ScoredCompletionItem)
    requires
        is_ranked(views(old(ranked)@)),
    ensures
        is_ranked(views(final(ranked)@)),
        views(final(ranked)@).to_multiset() == views(old(ranked)@).to_multiset().insert(item@),
        exists|slot: int|
            is_slot(views(old(ranked)@), item@, slot) && views(final(ranked)@) == views(
                old(ranked)@,
            ).insert(slot, item@),
{
    let mut at: usize = 0;
    while at < ranked.len() && !(item.score > ranked[at].score || (item.score == ranked[at].score
        && item.index < ranked[at].index))
        invariant
            at <= ranked.len(),
            *ranked == *old(ranked),
            forall|k: int| 0 <= k < at ==> !outranks(item@, #[trigger] views(ranked@)[k]),
        decreases ranked.len() - at,
    {
        at += 1;
    }
    let ghost before = views(ranked@);
    let ghost value = item@;
    ranked.insert(at, item);
    proof {
        let after = views(ranked@);
        assert(after =~= before.insert(at as int, value));
        assert(is_slot(before, value, at as int));
        vstd::seq_lib::to_multiset_insert(before, at as int, value);
        assert forall|i: int, j: int| 0 <= i < j < after.len() implies !outranks(
            #[trigger] after[j],
            #[trigger] after[i],
        ) by {
            if j < at {
                assert(after[i] == before[i] && after[j] == before[j]);
            } else if j == at {
                assert(after[i] == before[i]);
            } else if i < at {
                assert(after[i] == before[i] && after[j] == before[j - 1]);
            } else if i == at {
                assert(after[j] == before[j - 1]);
                assert(outranks(value, before[at as int]));
                if j - 1 > at {
                    assert(!outranks(before[j - 1], before[at as int]));
                }
            } else {
                assert(after[i] == before[i - 1] && after[j] == before[j - 1]);
            }
        }
    }
}

/// The entries of `all` that match `query`, best first.
///
/// Under the empty query every entry stays, in the order given. Otherwise an
/// entry stays when its label holds the query as a subsequence up to ASCII
/// case; it then carries the score and the matched offsets of that match, and
/// the list is ordered by falling score, entries of one score by their place
/// in the server's list.
pub fn rank(all: &Vec<ScoredCompletionItem>, query: &str) -> (ranked: Vec<ScoredCompletionItem>)
    ensures
        is_ranking(views(all@), query@, views(ranked@)),
        query@.len() == 0 ==> views(ranked@) == views(all@),
{
    if query.is_empty() {
        return copy_items(all);
    }
    let query_chars = chars_of(query);
    let mut ranked: Vec<ScoredCompletionItem> = Vec::new();
    let mut i: usize = 0;
    assert(views(ranked@) =~= survivors(views(all@).take(0), query@));
    while i < all.len()
        invariant
            i <= all.len(),
            query_chars@ == query@,
            is_ranked(views(ranked@)),
            views(ranked@).to_multiset() == survivors(views(all@).take(i as int), query@).to_multiset(),
        decreases all.len() - i,
    {
        let ghost seen = views(all@).take(i as int);
        let ghost next = views(all@).take(i + 1);
        assert(next.drop_last() =~= seen);
        assert(next.last() == all[i as int]@);
        match match_chars(query, &query_chars, all[i].item.label.as_str()) {
            Some((score, indices)) => {
                let item = ScoredCompletionItem {
                    item: all[i].item.clone(),
                    index: all[i].index,
                    score,
                    indices,
                };
                assert(item@ == rescored(all[i as int]@, query@));
                proof {
                    vstd::seq_lib::to_multiset_build(survivors(seen, query@), item@);
                }
                insert_ranked(&mut ranked, item);
            },
            None => {},
        }
        i += 1;
    }
    assert(views(all@).take(all.len() as int) =~= views(all@));
    ranked
}

} // verus!
