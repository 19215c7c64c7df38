//! Ranking support for the report: a stable descending sort of keyed
//! positions.
//!
//! The report ranks directories, largest files and extensions by a 64-bit
//! byte count, largest first, keeping the earlier position on ties. An item
//! is a `(bytes, position)` pair; with distinct positions the contract pins
//! the output order completely.

use vstd::prelude::*;

verus! {

broadcast use vstd::seq_lib::group_to_multiset_ensures;

/// The ranking order: more bytes first, and on equal bytes the smaller
/// original position first.
pub open spec fn ranked_before(a: (u64, usize), b: (u64, usize)) -> bool {
    a.0 > b.0 || (a.0 == b.0 && a.1 <= b.1)
}

/// Whether a sequence is ranked: descending by bytes, ascending position on
/// ties.
pub open spec fn is_ranked(s: Seq<(u64, usize)>) -> bool {
    forall|i: int, j: int| 0 <= i < j < s.len() ==> ranked_before(#[trigger] s[i], #[trigger] s[j])
}

/// Sorts `(bytes, position)` pairs by bytes descending, breaking ties by
/// the smaller position: the stable descending ranking of the report.
#[verifier::loop_isolation(false)]
pub fn sort_desc(v: Vec<(u64, usize)>) -> (r: Vec<(u64, usize)>)
    ensures
        is_ranked(r@),
        r@.to_multiset() == v@.to_multiset(),
{
    let mut work = v;
    let mut out: Vec<(u64, usize)> = Vec::new();
    while work.len() > 0
        invariant
            is_ranked(out@),
            forall|a: int, b: int|
                0 <= a < out@.len() && 0 <= b < work@.len() ==> ranked_before(
                    #[trigger] out@[a],
                    #[trigger] work@[b],
                ),
            out@.to_multiset().add(work@.to_multiset()) == v@.to_multiset(),
        decreases work@.len(),
    {
        let mut m: usize = 0;
        let mut j: usize = 1;
        while j < work.len()
            invariant
                m < j || (j <= 1 && m == 0),
                m < work@.len(),
                j <= work@.len(),
                forall|t: int| 0 <= t < j ==> ranked_before(work@[m as int], #[trigger] work@[t]),
            decreases work@.len() - j,
        {
            let earlier = work[j].0 > work[m].0 || (work[j].0 == work[m].0 && work[j].1
                < work[m].1);
            if earlier {
                m = j;
            }
            j = j + 1;
        }
        let ghost work0 = work@;
        let x = work.remove(m);
        out.push(x);
        proof {
            assert(work0.contains(x)) by {
                assert(work0[m as int] == x);
            }
            assert(out@.to_multiset().add(work@.to_multiset()) =~= v@.to_multiset());
            assert forall|b: int| 0 <= b < work@.len() implies ranked_before(
                x,
                #[trigger] work@[b],
            ) by {
                if b < m {
                    assert(work@[b] == work0[b]);
                } else {
                    assert(work@[b] == work0[b + 1]);
                }
            }
            assert forall|a: int, b: int|
                0 <= a < out@.len() && 0 <= b < work@.len() implies ranked_before(
                out@[a],
                work@[b],
            ) by {
                if a < out@.len() - 1 {
                    assert(ranked_before(out@[a], x));
                }
            }
        }
    }
    proof {
        assert(out@.to_multiset() =~= v@.to_multiset());
    }
    out
}

} // verus!
