//! How the per-edge tests of a point against a polygon decide whether the
//! point lies strictly inside it (ray casting).
use vstd::prelude::*;

verus! {

/// How many of the tests came out true.
pub open spec fn count_true(s: Seq<bool>) -> nat
    decreases s.len(),
{
    if s.len() == 0 {
        0
    } else {
        count_true(s.drop_last()) + if s.last() {
            1nat
        } else {
            0nat
        }
    }
}

/// Appending a test adds one to the count exactly when the test came out
/// true.
pub proof fn lemma_count_true_push(s: Seq<bool>, b: bool)
    ensures
        count_true(s.push(b)) == count_true(s) + if b {
            1int
        } else {
            0int
        },
{
    assert(s.push(b).drop_last() =~= s);
}

/// The count is the number of positions whose test came out true.
pub proof fn lemma_count_true_is_true_positions(s: Seq<bool>)
    ensures
        count_true(s) == s.filter(|b: bool| b).len(),
    decreases s.len(),
{
    reveal_with_fuel(Seq::<bool>::filter, 1);
    if s.len() > 0 {
        lemma_count_true_is_true_positions(s.drop_last());
    }
}

/// Whether the crossing test can decide at all: the polygon has at least
/// three edges and the point lies on none of them (a point on an edge counts
/// as outside). `on_edge[i]` tells whether the point lies on edge `i`.
pub fn clear_of_edges(on_edge: &Vec<bool>) -> (r: bool)
    ensures
        r == (on_edge.len() >= 3 && forall|i: int| 0 <= i < on_edge.len() ==> !#[trigger] on_edge@[i]),
{
    if on_edge.len() < 3 {
        return false;
    }
    let mut i: usize = 0;
    while i < on_edge.len()
        invariant
            i <= on_edge.len(),
            forall|j: int| 0 <= j < i ==> !#[trigger] on_edge@[j],
        decreases on_edge.len() - i,
    {
        if on_edge[i] {
            return false;
        }
        i += 1;
    }
    true
}

/// The point is inside when a ray from it crosses the polygon's edges an odd
/// number of times. `crossings[i]` tells whether the ray crosses edge `i`.
pub fn odd_crossings(crossings: &Vec<bool>) -> (inside: bool)
    ensures
        inside == (count_true(crossings@) % 2 == 1),
        inside == (crossings@.filter(|b: bool| b).len() % 2 == 1),
{
    let mut inside = false;
    let mut i: usize = 0;
    while i < crossings.len()
        invariant
            i <= crossings.len(),
            inside == (count_true(crossings@.take(i as int)) % 2 == 1),
        decreases crossings.len() - i,
    {
        assert(crossings@.take(i + 1) =~= crossings@.take(i as int).push(crossings@[i as int]));
        proof {
            lemma_count_true_push(crossings@.take(i as int), crossings@[i as int]);
        }
        if crossings[i] {
            inside = !inside;
        }
        i += 1;
    }
    assert(crossings@.take(crossings.len() as int) =~= crossings@);
    proof {
        lemma_count_true_is_true_positions(crossings@);
    }
    inside
}

} // verus!
