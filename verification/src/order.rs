//! Putting things in an order of one's own.
use vstd::prelude::*;

verus! {

/// A strict order on the positions below `size`.
pub trait Ranking {
    /// How many positions there are.
    spec fn size(&self) -> nat;

    /// Whether position `i` comes before position `j`.
    spec fn before(&self, i: int, j: int) -> bool;

    /// Of two positions one comes first, and the order carries on from one to the next.
    proof fn lemma_strict(&self, i: int, j: int, k: int)
        requires
            0 <= i < self.size(),
            0 <= j < self.size(),
            0 <= k < self.size(),
        ensures
            i != j ==> (self.before(i, j) || self.before(j, i)),
            !(self.before(i, j) && self.before(j, i)),
            self.before(i, j) && self.before(j, k) ==> self.before(i, k),
    ;

    /// Whether position `i` comes before position `j`.
    fn is_before(&self, i: usize, j: usize) -> (r: bool)
        requires
            i < self.size(),
            j < self.size(),
        ensures
            r == self.before(i as int, j as int),
    ;
}

/// Whether `out` holds exactly the positions below `n`.
pub open spec fn all_positions(out: Seq<usize>, n: nat) -> bool {
    &&& out.len() == n
    &&& forall|x: usize| x < n ==> #[trigger] out.contains(x)
    &&& forall|a: int| 0 <= a < out.len() ==> (#[trigger] out[a]) < n
}

/// Whether each position in `out` comes before every later one.
pub open spec fn in_order<R: Ranking>(r: R, out: Seq<usize>) -> bool {
    forall|a: int, b: int|
        0 <= a < b < out.len() ==> #[trigger] r.before(out[a] as int, out[b] as int)
}

/// All positions, in order.
pub fn arrange<R: Ranking>(r: &R, n: usize) -> (out: Vec<usize>)
    requires
        n == r.size(),
    ensures
        all_positions(out@, n as nat),
        in_order(*r, out@),
{
    let mut out: Vec<usize> = Vec::new();
    let mut k: usize = 0;
    while k < n
        invariant
            k <= n,
            n == r.size(),
            all_positions(out@, k as nat),
            in_order(*r, out@),
        decreases n - k,
    {
        let mut p: usize = 0;
        while p < out.len() && r.is_before(out[p], k)
            invariant
                p <= out@.len(),
                k < n,
                n == r.size(),
                all_positions(out@, k as nat),
                forall|q: int| 0 <= q < p ==> r.before(#[trigger] out@[q] as int, k as int),
            decreases out.len() - p,
        {
            p += 1;
        }
        let ghost was = out@;
        proof {
            assert forall|q: int| p <= q < was.len() implies r.before(
                k as int,
                #[trigger] was[q] as int,
            ) by {
                r.lemma_strict(was[p as int] as int, k as int, k as int);
                if q > p {
                    assert(r.before(was[p as int] as int, was[q] as int));
                    r.lemma_strict(k as int, was[p as int] as int, was[q] as int);
                }
            }
        }
        out.insert(p, k);
        proof {
            let now = out@;
            assert(now =~= was.insert(p as int, k));
            assert forall|x: usize| x < k + 1 implies #[trigger] now.contains(x) by {
                if x == k {
                    assert(now[p as int] == k);
                } else {
                    assert(was.contains(x));
                    let a = choose|a: int| 0 <= a < was.len() && was[a] == x;
                    if a < p {
                        assert(now[a] == x);
                    } else {
                        assert(now[a + 1] == x);
                    }
                }
            }
            assert forall|a: int| 0 <= a < now.len() implies (#[trigger] now[a]) < k + 1 by {
                if a < p {
                    assert(now[a] == was[a]);
                } else if a > p {
                    assert(now[a] == was[a - 1]);
                }
            }
            assert forall|a: int, b: int| 0 <= a < b < now.len() implies #[trigger] r.before(
                now[a] as int,
                now[b] as int,
            ) by {
                if b < p {
                    assert(r.before(was[a] as int, was[b] as int));
                } else if b == p {
                    assert(r.before(was[a] as int, k as int));
                } else if a < p {
                    assert(r.before(was[a] as int, was[b - 1] as int));
                } else if a == p {
                    assert(r.before(k as int, was[b - 1] as int));
                } else {
                    assert(r.before(was[a - 1] as int, was[b - 1] as int));
                }
            }
        }
        k += 1;
    }
    out
}

} // verus!
