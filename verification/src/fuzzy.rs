//! Ranking completions by how close they are to what is typed.

use vstd::prelude::*;
use crate::text::texts;

verus! {

/// The Damerau-Levenshtein distance of two texts, as the `distance` crate
/// computes it: the number of insertions, deletions, substitutions and
/// transpositions of characters that turn one into the other.
pub uninterp spec fn fuzzy_distance(s: Seq<char>, t: Seq<char>) -> nat;

/// Calls `distance::damerau_levenshtein`.
#[verifier::external_body]
pub(crate) fn fuzzy_dist(s: &str, t: &str) -> (d: usize)
    ensures
        d == fuzzy_distance(s@, t@),
{
    distance::damerau_levenshtein(s, t)
}

/// The list `sorted` with `x` put behind the last entry that is not farther
/// from `term` than `x` is.
pub open spec fn insert_ranked(sorted: Seq<Seq<char>>, x: Seq<char>, term: Seq<char>) -> Seq<
    Seq<char>,
>
    decreases sorted.len(),
{
    if sorted.len() == 0 {
        seq![x]
    } else if fuzzy_distance(term, sorted.last()) <= fuzzy_distance(term, x) {
        sorted.push(x)
    } else {
        insert_ranked(sorted.drop_last(), x, term).push(sorted.last())
    }
}

/// The first `n` entries of `list`, the nearest to `term` first; entries
/// that are equally far stay in the order in which they came.
pub open spec fn ranked_upto(list: Seq<Seq<char>>, term: Seq<char>, n: int) -> Seq<Seq<char>>
    decreases n,
{
    if n <= 0 {
        Seq::empty()
    } else {
        insert_ranked(ranked_upto(list, term, n - 1), list[n - 1], term)
    }
}

/// The entries of `list`, the nearest to `term` first.
pub open spec fn ranked(list: Seq<Seq<char>>, term: Seq<char>) -> Seq<Seq<char>> {
    ranked_upto(list, term, list.len() as int)
}

/// Whether each entry is at least as far from `term` as the one before it.
pub open spec fn is_ranked(list: Seq<Seq<char>>, term: Seq<char>) -> bool {
    forall|i: int, j: int|
        0 <= i < j < list.len() ==> fuzzy_distance(term, #[trigger] list[i]) <= fuzzy_distance(
            term,
            #[trigger] list[j],
        )
}

/// Putting an entry into a ranked list keeps the list ranked and adds that
/// entry and no other.
pub proof fn lemma_insert_ranked(sorted: Seq<Seq<char>>, x: Seq<char>, term: Seq<char>)
    requires
        is_ranked(sorted, term),
    ensures
        is_ranked(insert_ranked(sorted, x, term), term),
        insert_ranked(sorted, x, term).to_multiset() == sorted.to_multiset().insert(x),
        insert_ranked(sorted, x, term).len() == sorted.len() + 1,
    decreases sorted.len(),
{
    broadcast use vstd::seq_lib::to_multiset_build;

    let out = insert_ranked(sorted, x, term);
    if sorted.len() == 0 {
        assert(sorted =~= Seq::empty());
        assert(out =~= Seq::<Seq<char>>::empty().push(x));
    } else if fuzzy_distance(term, sorted.last()) <= fuzzy_distance(term, x) {
        assert forall|i: int, j: int| 0 <= i < j < out.len() implies fuzzy_distance(
            term,
            #[trigger] out[i],
        ) <= fuzzy_distance(term, #[trigger] out[j]) by {
            if j == sorted.len() {
                if i < sorted.len() - 1 {
                    assert(fuzzy_distance(term, sorted[i]) <= fuzzy_distance(
                        term,
                        sorted[sorted.len() - 1],
                    ));
                }
            } else {
                assert(fuzzy_distance(term, sorted[i]) <= fuzzy_distance(term, sorted[j]));
            }
        }
    } else {
        let rest = sorted.drop_last();
        assert(is_ranked(rest, term)) by {
            assert forall|i: int, j: int| 0 <= i < j < rest.len() implies fuzzy_distance(
                term,
                #[trigger] rest[i],
            ) <= fuzzy_distance(term, #[trigger] rest[j]) by {
                assert(fuzzy_distance(term, sorted[i]) <= fuzzy_distance(term, sorted[j]));
            }
        }
        lemma_insert_ranked(rest, x, term);
        let inner = insert_ranked(rest, x, term);
        assert(sorted =~= rest.push(sorted.last()));
        assert(out.to_multiset() =~= sorted.to_multiset().insert(x));
        assert forall|i: int, j: int| 0 <= i < j < out.len() implies fuzzy_distance(
            term,
            #[trigger] out[i],
        ) <= fuzzy_distance(term, #[trigger] out[j]) by {
            if j == inner.len() {
                assert(inner.to_multiset().count(inner[i]) > 0) by {
                    inner.to_multiset_ensures();
                    assert(inner.contains(inner[i]));
                }
                if inner[i] != x {
                    assert(rest.to_multiset().count(inner[i]) > 0);
                    rest.to_multiset_ensures();
                    assert(rest.contains(inner[i]));
                    let k = choose|k: int| 0 <= k < rest.len() && rest[k] == inner[i];
                    assert(fuzzy_distance(term, sorted[k]) <= fuzzy_distance(
                        term,
                        sorted[sorted.len() - 1],
                    ));
                }
            } else {
                assert(fuzzy_distance(term, inner[i]) <= fuzzy_distance(term, inner[j]));
            }
        }
    }
}

/// Ranking a list orders it by the distance from `term` and keeps each of
/// its entries, as often as it occurs.
pub proof fn lemma_ranked(list: Seq<Seq<char>>, term: Seq<char>, n: int)
    requires
        0 <= n <= list.len(),
    ensures
        is_ranked(ranked_upto(list, term, n), term),
        ranked_upto(list, term, n).to_multiset() == list.take(n).to_multiset(),
        ranked_upto(list, term, n).len() == n,
    decreases n,
{
    broadcast use vstd::seq_lib::to_multiset_build;

    if n > 0 {
        lemma_ranked(list, term, n - 1);
        lemma_insert_ranked(ranked_upto(list, term, n - 1), list[n - 1], term);
        assert(list.take(n) =~= list.take(n - 1).push(list[n - 1]));
    } else {
        assert(list.take(0) =~= Seq::empty());
    }
}

/// Where every entry from place `at` on is farther from `term` than `x`,
/// and the one before is not, `x` is put at place `at`.
proof fn lemma_insert_at(sorted: Seq<Seq<char>>, x: Seq<char>, term: Seq<char>, at: int)
    requires
        0 <= at <= sorted.len(),
        forall|k: int|
            at <= k < sorted.len() ==> fuzzy_distance(term, #[trigger] sorted[k]) > fuzzy_distance(
                term,
                x,
            ),
        at > 0 ==> fuzzy_distance(term, sorted[at - 1]) <= fuzzy_distance(term, x),
    ensures
        insert_ranked(sorted, x, term) == sorted.insert(at, x),
    decreases sorted.len() - at,
{
    if sorted.len() == 0 {
        assert(sorted.insert(at, x) =~= seq![x]);
    } else if at == sorted.len() {
        assert(sorted.insert(at, x) =~= sorted.push(x));
    } else {
        let rest = sorted.drop_last();
        lemma_insert_at(rest, x, term, at);
        assert(sorted.insert(at, x) =~= rest.insert(at, x).push(sorted.last()));
    }
}

/// Ranks the completions: the nearest to `term` comes first, and entries
/// that are equally far stay in the order in which they came.
pub fn rank_completions(term: &str, list: Vec<String>) -> (out: Vec<String>)
    ensures
        texts(out@) == ranked(texts(list@), term@),
{
    let mut out: Vec<String> = Vec::new();
    let mut keys: Vec<usize> = Vec::new();
    let mut i: usize = 0;
    assert(texts(out@) =~= ranked_upto(texts(list@), term@, 0));
    while i < list.len()
        invariant
            i <= list@.len(),
            keys@.len() == out@.len(),
            forall|k: int|
                0 <= k < out@.len() ==> (#[trigger] keys@[k]) == fuzzy_distance(term@, out@[k]@),
            texts(out@) == ranked_upto(texts(list@), term@, i as int),
        decreases list@.len() - i,
    {
        let d = fuzzy_dist(term, list[i].as_str());
        let mut at: usize = out.len();
        while at > 0 && keys[at - 1] > d
            invariant
                at <= out@.len(),
                keys@.len() == out@.len(),
                forall|k: int| at <= k < keys@.len() ==> (#[trigger] keys@[k]) > d,
            decreases at,
        {
            at -= 1;
        }
        let ghost before = texts(out@);
        proof {
            assert forall|k: int| at <= k < before.len() implies fuzzy_distance(
                term@,
                #[trigger] before[k],
            ) > fuzzy_distance(term@, list@[i as int]@) by {
                assert(keys@[k] > d);
            }
            if at > 0 {
                assert(keys@[at - 1] <= d);
                assert(before[at - 1] == out@[at - 1]@);
            }
            lemma_insert_at(before, list@[i as int]@, term@, at as int);
        }
        out.insert(at, list[i].clone());
        keys.insert(at, d);
        assert(texts(out@) =~= before.insert(at as int, list@[i as int]@));
        assert(texts(list@)[i as int] == list@[i as int]@);
        i += 1;
    }
    out
}

} // verus!
