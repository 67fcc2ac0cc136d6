//! Case-insensitive subsequence matching of a query against a candidate.
//!
//! The verdict (match or no match) and the validity of the highlighted
//! positions are established here; the score and the preferred alignment come
//! from the skim scorer, behind the `scorer` module.

use crate::scorer::{outcome_view, skim_fuzzy_indices, skim_outcome};
use vstd::prelude::*;
use vstd::std_specs::iter::IteratorSpec;

verus! {

/// The code point of `c` with the ASCII capitals mapped onto their small
/// letters.
pub open spec fn fold(c: char) -> u32 {
    if 'A' <= c && c <= 'Z' {
        (c as u32 + 32) as u32
    } else {
        c as u32
    }
}

/// Two characters are the same letter when they differ at most in ASCII case.
pub open spec fn same_letter(a: char, b: char) -> bool {
    fold(a) == fold(b)
}

/// `positions` places each character of `query`, in order, on a character of
/// `candidate` that is the same letter.
pub open spec fn is_embedding(
    query: Seq<char>,
    candidate: Seq<char>,
    positions: Seq<usize>,
) -> bool {
    &&& positions.len() == query.len()
    &&& forall|i: int|
        0 <= i < positions.len() ==> (#[trigger] positions[i]) < candidate.len() && same_letter(
            candidate[positions[i] as int],
            query[i],
        )
    &&& forall|i: int, j: int|
        0 <= i < j < positions.len() ==> (#[trigger] positions[i]) < (#[trigger] positions[j])
}

/// The characters of `query` occur in `candidate`, in order and up to ASCII
/// case, not necessarily next to each other.
pub open spec fn is_subsequence(query: Seq<char>, candidate: Seq<char>) -> bool {
    exists|positions: Seq<usize>| is_embedding(query, candidate, positions)
}

/// An embedding none of whose positions can move further left.
pub open spec fn is_leftmost_embedding(
    query: Seq<char>,
    candidate: Seq<char>,
    positions: Seq<usize>,
) -> bool {
    &&& is_embedding(query, candidate, positions)
    &&& forall|other: Seq<usize>, i: int|
        is_embedding(query, candidate, other) && 0 <= i < positions.len() ==> positions[i]
            <= #[trigger] other[i]
}

/// The leftmost embedding of `query` in `candidate`, where there is one.
pub open spec fn leftmost_embedding(query: Seq<char>, candidate: Seq<char>) -> Seq<usize> {
    choose|positions: Seq<usize>| is_leftmost_embedding(query, candidate, positions)
}

/// There is at most one leftmost embedding.
pub proof fn lemma_leftmost_unique(
    query: Seq<char>,
    candidate: Seq<char>,
    p: Seq<usize>,
    q: Seq<usize>,
)
    requires
        is_leftmost_embedding(query, candidate, p),
        is_leftmost_embedding(query, candidate, q),
    ensures
        p == q,
{
    assert forall|i: int| 0 <= i < p.len() implies p[i] == q[i] by {
        assert(p[i] <= q[i]);
        assert(q[i] <= p[i]);
    }
    assert(p =~= q);
}

/// Whether `a` and `b` are the same letter.
pub fn is_same_letter(a: char, b: char) -> (r: bool)
    ensures
        r == same_letter(a, b),
{
    fold_code(a) == fold_code(b)
}

fn fold_code(c: char) -> (r: u32)
    ensures
        r == fold(c),
{
    let n: u32 = c as u32;
    if 'A' <= c && c <= 'Z' {
        n + 32
    } else {
        n
    }
}

/// The characters of `s`, one element each.
pub fn chars_of(s: &str) -> (v: Vec<char>)
    ensures
        v@ == s@,
{
    let mut rest = s.chars();
    let mut v: Vec<char> = Vec::new();
    loop
        invariant
            v@ + rest.remaining() == s@,
        ensures
            v@ == s@,
        decreases s@.len() - v@.len(),
    {
        let ghost before = rest.remaining();
        match rest.next() {
            Some(c) => {
                v.push(c);
                assert(v@ + rest.remaining() =~= s@) by {
                    assert(before =~= seq![c] + before.drop_first());
                }
            },
            None => {
                assert(v@ + rest.remaining() =~= v@);
                assert(v@ == s@);
                break ;
            },
        }
    }
    v
}

/// Searches `candidate` from the left for the characters of `query`, taking
/// each at its first occurrence after the previous one.
pub fn find_leftmost(query: &Vec<char>, candidate: &Vec<char>) -> (r: Option<Vec<usize>>)
    ensures
        r is Some <==> is_subsequence(query@, candidate@),
        r matches Some(p) ==> is_leftmost_embedding(query@, candidate@, p@),
{
    let mut positions: Vec<usize> = Vec::new();
    let mut at: usize = 0;
    while at < candidate.len() && positions.len() < query.len()
        invariant
            at <= candidate.len(),
            positions.len() <= query.len(),
            forall|i: int|
                0 <= i < positions.len() ==> (#[trigger] positions[i]) < at && same_letter(
                    candidate[positions[i] as int],
                    query[i],
                ),
            forall|i: int, j: int|
                0 <= i < j < positions.len() ==> (#[trigger] positions[i])
                    < (#[trigger] positions[j]),
            forall|other: Seq<usize>, i: int|
                is_embedding(query@, candidate@, other) && 0 <= i < positions.len()
                    ==> positions[i] <= #[trigger] other[i],
            forall|other: Seq<usize>|
                #[trigger] is_embedding(query@, candidate@, other) && positions.len()
                    < query.len() ==> other[positions.len() as int] >= at,
        decreases candidate.len() - at,
    {
        let ghost found = positions@;
        let ghost k = positions.len() as int;
        if is_same_letter(candidate[at], query[positions.len()]) {
            positions.push(at);
            assert forall|other: Seq<usize>, i: int|
                is_embedding(query@, candidate@, other) && 0 <= i < positions.len()
                implies positions[i] <= #[trigger] other[i] by {
                if i < k {
                    assert(positions[i] == found[i]);
                } else {
                    assert(other[k] >= at);
                }
            }
            assert forall|other: Seq<usize>|
                #[trigger] is_embedding(query@, candidate@, other) && positions.len()
                    < query.len() implies other[positions.len() as int] >= at + 1 by {
                assert(other[k] >= at);
                assert(other[k] < other[k + 1]);
            }
        } else {
            assert forall|other: Seq<usize>|
                #[trigger] is_embedding(query@, candidate@, other) && positions.len()
                    < query.len() implies other[positions.len() as int] >= at + 1 by {
                assert(other[k] >= at);
                if other[k] == at {
                    assert(same_letter(candidate[other[k] as int], query[k]));
                }
            }
        }
        at += 1;
    }
    if positions.len() == query.len() {
        assert(is_embedding(query@, candidate@, positions@));
        Some(positions)
    } else {
        assert forall|other: Seq<usize>| !is_embedding(query@, candidate@, other) by {
            if is_embedding(query@, candidate@, other) {
                assert(other[positions.len() as int] >= at);
                assert(other[positions.len() as int] < candidate.len());
            }
        }
        None
    }
}

/// Whether `positions` is an embedding of `query` in `candidate`.
pub fn is_valid_embedding(query: &Vec<char>, candidate: &Vec<char>, positions: &Vec<usize>) -> (r:
    bool)
    ensures
        r == is_embedding(query@, candidate@, positions@),
{
    if positions.len() != query.len() {
        return false;
    }
    let mut i: usize = 0;
    while i < positions.len()
        invariant
            i <= positions.len(),
            positions.len() == query.len(),
            forall|a: int|
                0 <= a < i ==> (#[trigger] positions[a]) < candidate.len() && same_letter(
                    candidate[positions[a] as int],
                    query[a],
                ),
            forall|a: int, b: int|
                0 <= a < b < i ==> (#[trigger] positions[a]) < (#[trigger] positions[b]),
        decreases positions.len() - i,
    {
        let at: usize = positions[i];
        if at >= candidate.len() {
            return false;
        }
        if !is_same_letter(candidate[at], query[i]) {
            return false;
        }
        if i > 0 && positions[i - 1] >= at {
            assert(!(positions[i - 1] < positions[i as int]));
            return false;
        }
        assert forall|a: int, b: int| 0 <= a < b < i + 1 implies (#[trigger] positions[a])
            < (#[trigger] positions[b]) by {
            if b == i && a < i - 1 {
                assert(positions[a] < positions[i - 1]);
            }
        }
        i += 1;
    }
    true
}

/// The score of a match: the scorer's, or zero where it gave none.
pub open spec fn score_of(outcome: Option<(i64, Seq<usize>)>) -> i64 {
    match outcome {
        Some((score, _)) => score,
        None => 0,
    }
}

/// The highlighted positions of a match: the scorer's alignment where it is
/// an embedding, else the leftmost embedding.
pub open spec fn positions_of(
    query: Seq<char>,
    candidate: Seq<char>,
    outcome: Option<(i64, Seq<usize>)>,
) -> Seq<usize> {
    match outcome {
        Some((_, positions)) if is_embedding(query, candidate, positions) => positions,
        _ => leftmost_embedding(query, candidate),
    }
}

/// The result of matching `query` against `candidate`, given the scorer's
/// answer for the pair.
pub open spec fn match_of(
    query: Seq<char>,
    candidate: Seq<char>,
    outcome: Option<(i64, Seq<usize>)>,
) -> Option<(i64, Seq<usize>)> {
    if is_subsequence(query, candidate) {
        Some((score_of(outcome), positions_of(query, candidate, outcome)))
    } else {
        None
    }
}

/// Whatever the scorer answered, a result exists exactly for the candidates
/// that hold the query as a subsequence up to ASCII case, and its positions
/// are one per query character, strictly increasing, each on the same letter.
pub proof fn lemma_match_is_subsequence(
    query: Seq<char>,
    candidate: Seq<char>,
    outcome: Option<(i64, Seq<usize>)>,
)
    ensures
        match_of(query, candidate, outcome) is Some <==> is_subsequence(query, candidate),
        match_of(query, candidate, outcome) matches Some((_, positions)) ==> {
            &&& is_embedding(query, candidate, positions)
            &&& positions.len() == query.len()
            &&& forall|i: int, j: int|
                0 <= i < j < positions.len() ==> (#[trigger] positions[i])
                    < (#[trigger] positions[j])
        },
{
    if is_subsequence(query, candidate) {
        lemma_leftmost_exists(query, candidate);
    }
}

/// Where there is an embedding there is a leftmost one.
pub proof fn lemma_leftmost_exists(query: Seq<char>, candidate: Seq<char>)
    requires
        is_subsequence(query, candidate),
    ensures
        is_leftmost_embedding(query, candidate, leftmost_embedding(query, candidate)),
    decreases query.len(),
{
    let some = choose|p: Seq<usize>| is_embedding(query, candidate, p);
    if query.len() == 0 {
        assert(is_leftmost_embedding(query, candidate, some));
    } else {
        let n = query.len() as int - 1;
        let head = query.drop_last();
        assert(is_embedding(head, candidate, some.drop_last()));
        lemma_leftmost_exists(head, candidate);
        let left = leftmost_embedding(head, candidate);
        let from: int = if n == 0 {
            0
        } else {
            left[n - 1] + 1
        };
        assert(from <= some[n]) by {
            if n > 0 {
                assert(left[n - 1] <= some.drop_last()[n - 1]);
                assert(some[n - 1] < some[n]);
            }
        }
        let at = first_same_letter(query[n], candidate, from, some[n] as int);
        lemma_first_same_letter(query[n], candidate, from, some[n] as int);
        let whole = left.push(at as usize);
        assert(is_embedding(query, candidate, whole)) by {
            assert forall|i: int, j: int| 0 <= i < j < whole.len() implies (#[trigger] whole[i])
                < (#[trigger] whole[j]) by {
                if j == n && i < n - 1 {
                    assert(left[i] < left[n - 1]);
                }
            }
        }
        assert forall|other: Seq<usize>, i: int|
            is_embedding(query, candidate, other) && 0 <= i < whole.len() implies whole[i]
            <= #[trigger] other[i] by {
            assert(is_embedding(head, candidate, other.drop_last()));
            if i < n {
                assert(left[i] <= other.drop_last()[i]);
            } else {
                if n > 0 {
                    assert(left[n - 1] <= other.drop_last()[n - 1]);
                    assert(other[n - 1] < other[n]);
                }
                assert(same_letter(candidate[other[n] as int], query[n]));
            }
        }
        assert(is_leftmost_embedding(query, candidate, whole));
    }
}

/// The first index in `from..=to` at which `candidate` holds the letter `c`,
/// given that it holds it at `to`.
pub open spec fn first_same_letter(c: char, candidate: Seq<char>, from: int, to: int) -> int
    decreases to - from,
{
    if from >= to || same_letter(candidate[from], c) {
        from
    } else {
        first_same_letter(c, candidate, from + 1, to)
    }
}

/// `first_same_letter` finds the letter, and nothing before it does.
pub proof fn lemma_first_same_letter(c: char, candidate: Seq<char>, from: int, to: int)
    requires
        0 <= from <= to < candidate.len(),
        same_letter(candidate[to], c),
    ensures
        from <= first_same_letter(c, candidate, from, to) <= to,
        same_letter(candidate[first_same_letter(c, candidate, from, to)], c),
        forall|k: int|
            from <= k < first_same_letter(c, candidate, from, to) ==> !same_letter(
                #[trigger] candidate[k],
                c,
            ),
    decreases to - from,
{
    if from < to && !same_letter(candidate[from], c) {
        lemma_first_same_letter(c, candidate, from + 1, to);
    }
}

/// Decides the match of `query` against `candidate` from the `outcome` that
/// the scorer gave for the pair: no match unless the query is a subsequence;
/// else the scorer's score and, where they form an embedding, its positions.
pub fn resolve_match(
    query: &Vec<char>,
    candidate: &Vec<char>,
    outcome: Option<(i64, Vec<usize>)>,
) -> (r: Option<(i64, Vec<usize>)>)
    ensures
        outcome_view(r) == match_of(query@, candidate@, outcome_view(outcome)),
{
    match find_leftmost(query, candidate) {
        None => None,
        Some(leftmost) => {
            proof {
                lemma_leftmost_unique(
                    query@,
                    candidate@,
                    leftmost@,
                    leftmost_embedding(query@, candidate@),
                );
            }
            match outcome {
                Some((score, positions)) => {
                    if is_valid_embedding(query, candidate, &positions) {
                        Some((score, positions))
                    } else {
                        Some((score, leftmost))
                    }
                },
                None => Some((0, leftmost)),
            }
        },
    }
}

/// Matches `query` against `candidate`: `None` unless every character of the
/// query occurs in the candidate, in order and up to ASCII case; else the
/// score and the character offsets to highlight.
pub fn fuzzy_match(query: &str, candidate: &str) -> (r: Option<(i64, Vec<usize>)>)
    ensures
        outcome_view(r) == match_of(query@, candidate@, skim_outcome(candidate@, query@)),
        r is Some <==> is_subsequence(query@, candidate@),
        r matches Some((_, positions)) ==> is_embedding(query@, candidate@, positions@),
{
    let query_chars = chars_of(query);
    match_chars(query, &query_chars, candidate)
}

/// `fuzzy_match` for a query whose characters are at hand.
pub fn match_chars(query: &str, query_chars: &Vec<char>, candidate: &str) -> (r: Option<
    (i64, Vec<usize>),
>)
    requires
        query_chars@ == query@,
    ensures
        outcome_view(r) == match_of(query@, candidate@, skim_outcome(candidate@, query@)),
        r is Some <==> is_subsequence(query@, candidate@),
        r matches Some((_, positions)) ==> is_embedding(query@, candidate@, positions@),
{
    let candidate_chars = chars_of(candidate);
    let outcome = skim_fuzzy_indices(candidate, query);
    proof {
        lemma_match_is_subsequence(query@, candidate@, outcome_view(outcome));
    }
    resolve_match(query_chars, &candidate_chars, outcome)
}

} // verus!
