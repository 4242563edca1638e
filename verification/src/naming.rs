//! Naming disambiguator: given a desired destination that is already taken,
//! pick the first free alternative by replacing the destination's extension
//! with the counters 1, 2, 3, … in turn.

use vstd::prelude::*;
use crate::path::{with_counter, lemma_with_counter_injective, new_item_name, str_eq};

verus! {

/// Whether some entry of `taken` reads as the path `p`.
pub open spec fn contains_path(taken: Seq<String>, p: Seq<char>) -> bool {
    exists|j: int| 0 <= j < taken.len() && taken[j]@ == p
}

/// Whether `p` names an entry of `taken`.
pub fn contains_str(taken: &Vec<String>, p: &str) -> (r: bool)
    ensures
        r == contains_path(taken@, p@),
{
    let n = taken.len();
    let mut j: usize = 0;
    while j < n
        invariant
            j <= n,
            n == taken@.len(),
            forall|k: int| 0 <= k < j ==> taken@[k]@ != p@,
        decreases n - j,
    {
        if str_eq(taken[j].as_str(), p) {
            return true;
        }
        j = j + 1;
    }
    false
}

/// Resolve a destination collision: return the first candidate
/// `with_counter(path, c)`, for `c = 1, 2, 3, …`, that is not taken, together
/// with the counter that produced it.
///
/// The result is never one of the taken paths, and every smaller counter's
/// candidate was taken — the counter chosen is the least that works. The
/// taken list must leave the counter room below `u64::MAX`, which any list
/// that fits in memory does.
pub fn disambiguate(path: &str, taken: &Vec<String>) -> (r: (String, u64))
    requires
        taken@.len() + 2 < u64::MAX,
    ensures
        1 <= r.1,
        r.0@ == with_counter(path@, r.1 as nat),
        !contains_path(taken@, r.0@),
        forall|c: u64| 1 <= c < r.1 ==> contains_path(taken@, with_counter(path@, c as nat)),
{
    broadcast use vstd::seq_lib::group_seq_properties;

    let ghost taken_views: Seq<Seq<char>> = taken@.map_values(|t: String| t@);
    let ghost mut seen: Set<Seq<char>> = Set::empty();
    let mut count: u64 = 1;
    loop
        invariant
            1 <= count,
            count - 1 <= taken@.len(),
            taken@.len() + 2 < u64::MAX,
            taken_views == taken@.map_values(|t: String| t@),
            seen.finite(),
            seen.len() == count - 1,
            forall|c: u64| 1 <= c < count ==> contains_path(taken@, with_counter(path@, c as nat)),
            forall|c: u64| 1 <= c < count ==> seen.contains(with_counter(path@, c as nat)),
            forall|x: Seq<char>| seen.contains(x) ==> exists|c: u64|
                1 <= c < count && x == with_counter(path@, c as nat),
        decreases taken@.len() + 1 - count,
    {
        let cand = new_item_name(path, count);
        if !contains_str(taken, cand.as_str()) {
            return (cand, count);
        }
        proof {
            assert(!seen.contains(cand@)) by {
                if seen.contains(cand@) {
                    let c = choose|c: u64|
                        1 <= c < count && cand@ == with_counter(path@, c as nat);
                    lemma_with_counter_injective(path@, c as nat, count as nat);
                }
            }
            vstd::set::axiom_set_insert_len(seen, cand@);
            seen = seen.insert(cand@);
            assert(seen.len() == count as int);
            assert(seen.subset_of(taken_views.to_set())) by {
                assert forall|x: Seq<char>| seen.contains(x) implies taken_views.to_set().contains(
                    x,
                ) by {
                    if x == cand@ {
                        let j = choose|j: int| 0 <= j < taken@.len() && taken@[j]@ == cand@;
                        assert(taken_views[j] == x);
                        assert(taken_views.contains(x));
                    } else {
                        let c = choose|c: u64|
                            1 <= c < count && x == with_counter(path@, c as nat);
                        let j = choose|j: int| 0 <= j < taken@.len() && taken@[j]@ == x;
                        assert(taken_views[j] == x);
                        assert(taken_views.contains(x));
                    }
                }
            }
            taken_views.lemma_cardinality_of_set();
            vstd::set_lib::lemma_len_subset(seen, taken_views.to_set());
        }
        count = count + 1;
    }
}

/// Collision monotonicity: when a second collision is resolved against a
/// taken set that has grown by at least the first resolution's result, the
/// chosen counter strictly increases — repeated collisions against the same
/// stem walk through a strictly increasing, previously unused sequence.
///
/// The hypotheses are exactly what two calls of [`disambiguate`] ensure,
/// plus the growth of the taken set between them.
pub proof fn lemma_disambiguation_monotonic(
    p: Seq<char>,
    taken1: Seq<String>,
    c1: u64,
    taken2: Seq<String>,
    c2: u64,
)
    requires
        1 <= c1,
        1 <= c2,
        forall|c: u64| 1 <= c < c1 ==> contains_path(taken1, with_counter(p, c as nat)),
        !contains_path(taken2, with_counter(p, c2 as nat)),
        forall|x: Seq<char>| contains_path(taken1, x) ==> contains_path(taken2, x),
        contains_path(taken2, with_counter(p, c1 as nat)),
    ensures
        c2 > c1,
{
    if c2 < c1 {
        assert(contains_path(taken1, with_counter(p, c2 as nat)));
    }
}

} // verus!
