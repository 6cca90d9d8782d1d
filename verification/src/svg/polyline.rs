//! Which vertices of a polyline each of its segments joins.

use vstd::prelude::*;

verus! {

/// How many vertices a polyline of `vertices` is drawn through: a closed
/// one whose file repeats its first vertex at its end (`repeats_first`)
/// loses the repeat, so that it makes no segment of no length and keeps
/// its closing segment's bulge.
pub open spec fn drawn_vertices(vertices: nat, closed: bool, repeats_first: bool) -> nat {
    if closed && vertices > 2 && repeats_first {
        (vertices - 1) as nat
    } else {
        vertices
    }
}

/// How many segments a polyline drawn through `n` vertices has: none
/// below two vertices, one from each vertex to the next, and for a closed
/// one a last segment back to the first.
pub open spec fn segment_count(n: nat, closed: bool) -> nat {
    if n < 2 {
        0
    } else if closed {
        n
    } else {
        (n - 1) as nat
    }
}

/// The segments of a polyline of `vertices` vertices, in order, as the
/// pairs of vertices each joins: segment `i` leaves vertex `i` -- the one
/// whose bulge shapes it -- for the next, the last of a closed polyline
/// going back to the first (see [`drawn_vertices`] and
/// [`segment_count`]).
pub fn segment_ends(vertices: usize, closed: bool, repeats_first: bool) -> (r: Vec<(usize, usize)>)
    ensures
        r@.len() == segment_count(drawn_vertices(vertices as nat, closed, repeats_first), closed),
        forall|i: int| 0 <= i < r@.len() ==> (#[trigger] r@[i]).0 == i && r@[i].1 == (i + 1) % (drawn_vertices(
            vertices as nat,
            closed,
            repeats_first,
        ) as int),
{
    let n = if closed && vertices > 2 && repeats_first {
        vertices - 1
    } else {
        vertices
    };
    let mut r: Vec<(usize, usize)> = Vec::new();
    if n < 2 {
        return r;
    }
    let count = if closed {
        n
    } else {
        n - 1
    };
    let mut i: usize = 0;
    while i < count
        invariant
            count <= n,
            n >= 2,
            n == drawn_vertices(vertices as nat, closed, repeats_first),
            count == segment_count(n as nat, closed),
            i <= count,
            r@.len() == i,
            forall|k: int| 0 <= k < i ==> (#[trigger] r@[k]).0 == k && r@[k].1 == (k + 1) % (n as int),
        decreases count - i,
    {
        let next = if i + 1 == n {
            0
        } else {
            i + 1
        };
        assert(next == (i + 1) % (n as int)) by {
            if i + 1 < n {
                vstd::arithmetic::div_mod::lemma_small_mod((i + 1) as nat, n as nat);
            } else {
                vstd::arithmetic::div_mod::lemma_mod_self_0(n as int);
            }
        }
        r.push((i, next));
        i = i + 1;
    }
    r
}

} // verus!
