//! The priority view: a vector of `(priority, id)` pairs kept in strictly
//! increasing order, so that the head of the view is its last entry.
use vstd::prelude::*;

verus! {

/// The order of the priority view: by priority, then by id reversed, so that
/// among equal priorities the lowest id comes last.
pub open spec fn pair_lt(a: (u32, usize), b: (u32, usize)) -> bool {
    a.0 < b.0 || (a.0 == b.0 && a.1 > b.1)
}

/// Every entry comes strictly before the entries after it.
pub open spec fn strictly_sorted(q: Seq<(u32, usize)>) -> bool {
    forall|a: int, b: int| 0 <= a < b < q.len() ==> #[trigger] pair_lt(q[a], q[b])
}

/// Compares two entries in the order of the view.
fn pair_less(a: (u32, usize), b: (u32, usize)) -> (r: bool)
    ensures
        r == pair_lt(a, b),
{
    a.0 < b.0 || (a.0 == b.0 && a.1 > b.1)
}

/// Inserts `p` at its place in the order.
pub fn insert_sorted(q: &mut Vec<(u32, usize)>, p: (u32, usize))
    requires
        strictly_sorted(old(q)@),
        !old(q)@.contains(p),
    ensures
        strictly_sorted(final(q)@),
        final(q)@.len() == old(q)@.len() + 1,
        forall|x: (u32, usize)| #[trigger] final(q)@.contains(x) <==> (old(q)@.contains(x) || x == p),
{
    let mut pos: usize = 0;
    while pos < q.len() && !pair_less(p, q[pos])
        invariant
            pos <= q@.len(),
            strictly_sorted(q@),
            !q@.contains(p),
            forall|k: int| 0 <= k < pos ==> #[trigger] pair_lt(q@[k], p),
        decreases q@.len() - pos,
    {
        assert(q@[pos as int] != p);
        pos = pos + 1;
    }
    let ghost before = q@;
    q.insert(pos, p);
    proof {
        assert(q@ == before.insert(pos as int, p));
        assert forall|a: int, b: int| 0 <= a < b < q@.len() implies #[trigger] pair_lt(q@[a], q@[b]) by {
            if b < pos {
            } else if b == pos {
            } else if a < pos {
                assert(pair_lt(before[a], p));
                assert(pair_lt(p, before[pos as int]) || pos as int == b - 1);
                if pos as int != b - 1 {
                    assert(pair_lt(before[pos as int], before[b - 1]));
                }
            } else if a == pos {
                assert(pair_lt(p, before[pos as int]));
                if pos as int != b - 1 {
                    assert(pair_lt(before[pos as int], before[b - 1]));
                }
            } else {
                assert(pair_lt(before[a - 1], before[b - 1]));
            }
        }
        assert forall|x: (u32, usize)| #[trigger] q@.contains(x) <==> (before.contains(x) || x == p) by {
            if q@.contains(x) {
                let k = choose|k: int| 0 <= k < q@.len() && q@[k] == x;
                if k < pos {
                    assert(before[k] == x);
                } else if k > pos {
                    assert(before[k - 1] == x);
                }
            }
            if before.contains(x) {
                let k = choose|k: int| 0 <= k < before.len() && before[k] == x;
                if k < pos {
                    assert(q@[k] == x);
                } else {
                    assert(q@[k + 1] == x);
                }
            }
            if x == p {
                assert(q@[pos as int] == x);
            }
        }
    }
}

} // verus!
