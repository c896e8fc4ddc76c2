//! The two orderings the placement relies on: which corner comes first
//! (lowest, then leftmost) and which shape is tried first (largest
//! outline first). Coordinates and outlines come in as integer keys whose
//! order is the order of the values they stand for.
use vstd::prelude::*;

verus! {

/// The point `a` lies strictly lower than `b`, or at the same height and
/// strictly to its left. Points are `(x, y)` pairs of order keys.
pub open spec fn lower_left(a: (i64, i64), b: (i64, i64)) -> bool {
    a.1 < b.1 || (a.1 == b.1 && a.0 < b.0)
}

/// Some candidate lies lower-left of the starting bound `(bound, bound)`.
pub open spec fn has_candidate(corners: Seq<Option<(i64, i64)>>, bound: i64) -> bool {
    exists|i: int|
        0 <= i < corners.len() && #[trigger] corners[i] is Some && lower_left(
            corners[i]->0,
            (bound, bound),
        )
}

/// Position `i` holds the corner the scan settles on: a candidate below the
/// bound, strictly lower-left of every candidate before it, with no later
/// candidate strictly lower-left of it.
pub open spec fn is_chosen_corner(corners: Seq<Option<(i64, i64)>>, bound: i64, i: int) -> bool {
    &&& 0 <= i < corners.len()
    &&& corners[i] is Some
    &&& lower_left(corners[i]->0, (bound, bound))
    &&& forall|j: int|
        0 <= j < i && #[trigger] corners[j] is Some ==> lower_left(corners[i]->0, corners[j]->0)
    &&& forall|j: int|
        i < j < corners.len() && #[trigger] corners[j] is Some ==> !lower_left(
            corners[j]->0,
            corners[i]->0,
        )
}

/// The corner that links to the corner at position `i` in a chain walked from
/// its first corner; the first corner stands for itself.
pub open spec fn parent_position(i: int) -> int {
    if i == 0 {
        0
    } else {
        i - 1
    }
}

/// The parent of a corner is the corner walked just before it; the first
/// corner is its own parent.
pub proof fn lemma_parent_is_previous(i: int)
    requires
        i >= 0,
    ensures
        i == 0 ==> parent_position(i) == 0,
        i > 0 ==> parent_position(i) + 1 == i,
{
}

/// At most one position is the chosen corner.
pub proof fn lemma_chosen_corner_unique(
    corners: Seq<Option<(i64, i64)>>,
    bound: i64,
    i: int,
    j: int,
)
    requires
        is_chosen_corner(corners, bound, i),
        is_chosen_corner(corners, bound, j),
    ensures
        i == j,
{
    if i < j {
        assert(corners[i] is Some);
        assert(corners[j] is Some);
    } else if j < i {
        assert(corners[i] is Some);
        assert(corners[j] is Some);
    }
}

/// The chosen corner is the lowest candidate and, among the lowest, the
/// leftmost, and the first such one: its `y` is at most every candidate's
/// `y`, its `x` at most that of every candidate at the same height, every
/// earlier candidate is higher or (at the same height) further right, and it
/// lies lower-left of the starting bound.
pub proof fn lemma_chosen_corner_is_lowest_then_leftmost(
    corners: Seq<Option<(i64, i64)>>,
    bound: i64,
    i: int,
)
    requires
        is_chosen_corner(corners, bound, i),
    ensures
        0 <= i < corners.len(),
        corners[i] is Some,
        (corners[i]->0).1 < bound || ((corners[i]->0).1 == bound && (corners[i]->0).0 < bound),
        forall|j: int|
            0 <= j < corners.len() && #[trigger] corners[j] is Some ==> {
                &&& (corners[i]->0).1 <= (corners[j]->0).1
                &&& (corners[i]->0).1 == (corners[j]->0).1 ==> (corners[i]->0).0 <= (corners[j]->0).0
            },
        forall|j: int|
            0 <= j < i && #[trigger] corners[j] is Some ==> (corners[i]->0).1 < (corners[j]->0).1 || (
            (corners[i]->0).1 == (corners[j]->0).1 && (corners[i]->0).0 < (corners[j]->0).0),
{
    assert forall|j: int| 0 <= j < corners.len() && #[trigger] corners[j] is Some implies {
        &&& (corners[i]->0).1 <= (corners[j]->0).1
        &&& (corners[i]->0).1 == (corners[j]->0).1 ==> (corners[i]->0).0 <= (corners[j]->0).0
    } by {
        if j < i {
        } else if j > i {
        }
    }
}

/// With no candidate lower-left of the starting bound, every corner that can
/// be chosen lies above the bound, or at its height and not left of it.
pub proof fn lemma_no_candidate_means_none_below(corners: Seq<Option<(i64, i64)>>, bound: i64)
    requires
        !has_candidate(corners, bound),
    ensures
        forall|j: int|
            0 <= j < corners.len() && #[trigger] corners[j] is Some ==> (corners[j]->0).1 > bound || (
            (corners[j]->0).1 == bound && (corners[j]->0).0 >= bound),
{
}

/// Scans the corners in chain order for the lowest one, the leftmost among
/// the lowest, keeping the first of equal ones. `None` marks a corner that
/// cannot be chosen; the scan starts from `(bound, bound)`.
pub fn lowest_leftmost(corners: &Vec<Option<(i64, i64)>>, bound: i64) -> (r: Option<usize>)
    ensures
        r is None <==> !has_candidate(corners@, bound),
        r matches Some(i) ==> is_chosen_corner(corners@, bound, i as int),
        r is None ==> forall|j: int|
            0 <= j < corners.len() && #[trigger] corners@[j] is Some ==> (corners@[j]->0).1 > bound
                || ((corners@[j]->0).1 == bound && (corners@[j]->0).0 >= bound),
        r matches Some(i) ==> {
            &&& i < corners.len()
            &&& corners@[i as int] is Some
            &&& forall|j: int|
                0 <= j < corners.len() && #[trigger] corners@[j] is Some ==> {
                    &&& (corners@[i as int]->0).1 <= (corners@[j]->0).1
                    &&& (corners@[i as int]->0).1 == (corners@[j]->0).1 ==> (corners@[i as int]->0).0
                        <= (corners@[j]->0).0
                }
            &&& forall|j: int|
                0 <= j < i && #[trigger] corners@[j] is Some ==> (corners@[i as int]->0).1
                    < (corners@[j]->0).1 || ((corners@[i as int]->0).1 == (corners@[j]->0).1
                    && (corners@[i as int]->0).0 < (corners@[j]->0).0)
        },
{
    let mut lowest = bound;
    let mut leftmost = bound;
    let mut best: Option<usize> = None;
    let mut i: usize = 0;
    while i < corners.len()
        invariant
            i <= corners.len(),
            best is None ==> {
                &&& lowest == bound
                &&& leftmost == bound
                &&& forall|j: int|
                    0 <= j < i && #[trigger] corners@[j] is Some ==> !lower_left(
                        corners@[j]->0,
                        (bound, bound),
                    )
            },
            best matches Some(b) ==> {
                &&& b < i
                &&& corners@[b as int] == Some((leftmost, lowest))
                &&& lower_left((leftmost, lowest), (bound, bound))
                &&& forall|j: int|
                    0 <= j < b && #[trigger] corners@[j] is Some ==> lower_left(
                        corners@[b as int]->0,
                        corners@[j]->0,
                    )
                &&& forall|j: int|
                    b < j < i && #[trigger] corners@[j] is Some ==> !lower_left(
                        corners@[j]->0,
                        corners@[b as int]->0,
                    )
            },
        decreases corners.len() - i,
    {
        if let Some((x, y)) = corners[i] {
            if y < lowest || (y == lowest && x < leftmost) {
                lowest = y;
                leftmost = x;
                best = Some(i);
            }
        }
        i += 1;
    }
    proof {
        if best is None && has_candidate(corners@, bound) {
            let w = choose|w: int|
                0 <= w < corners@.len() && #[trigger] corners@[w] is Some && lower_left(
                    corners@[w]->0,
                    (bound, bound),
                );
            assert(corners@[w] is Some);
        }
        match best {
            Some(b) => lemma_chosen_corner_is_lowest_then_leftmost(corners@, bound, b as int),
            None => lemma_no_candidate_means_none_below(corners@, bound),
        }
    }
    best
}

/// The corner a shape is set against: the parent of the lowest-leftmost
/// corner, that is the corner that links to it (the first corner when the
/// first corner itself is lowest-leftmost). `None` when no corner qualifies.
pub fn get_corner_place(corners: &Vec<Option<(i64, i64)>>, bound: i64) -> (r: Option<usize>)
    ensures
        r is None <==> !has_candidate(corners@, bound),
        r matches Some(p) ==> exists|i: int|
            #[trigger] is_chosen_corner(corners@, bound, i) && p == parent_position(i),
        r matches Some(p) ==> exists|i: int|
            #[trigger] is_chosen_corner(corners@, bound, i) && (i == 0 ==> p == 0) && (i > 0 ==> p
                + 1 == i),
{
    match lowest_leftmost(corners, bound) {
        None => None,
        Some(i) => {
            assert(is_chosen_corner(corners@, bound, i as int));
            if i == 0 {
                Some(0)
            } else {
                Some(i - 1)
            }
        },
    }
}

/// Position `i` holds the running maximum that a scan from `start` ends on:
/// a key above `start`, above every key before it and not below any key after
/// it. `None` marks a value that never compares above anything.
pub open spec fn is_first_max(keys: Seq<Option<i64>>, start: i64, i: int) -> bool {
    &&& 0 <= i < keys.len()
    &&& keys[i] is Some
    &&& keys[i]->0 > start
    &&& forall|j: int| 0 <= j < i && #[trigger] keys[j] is Some ==> keys[j]->0 < keys[i]->0
    &&& forall|j: int| i < j < keys.len() && #[trigger] keys[j] is Some ==> keys[j]->0 <= keys[i]->0
}

/// Some key lies above `start`.
pub open spec fn has_key_above(keys: Seq<Option<i64>>, start: i64) -> bool {
    exists|i: int| 0 <= i < keys.len() && #[trigger] keys[i] is Some && keys[i]->0 > start
}

/// The running maximum holds the largest key of all, above `start`, and no
/// key before it equals it.
pub proof fn lemma_first_max_is_largest(keys: Seq<Option<i64>>, start: i64, i: int)
    requires
        is_first_max(keys, start, i),
    ensures
        0 <= i < keys.len(),
        keys[i] is Some,
        keys[i]->0 > start,
        forall|j: int| 0 <= j < keys.len() && #[trigger] keys[j] is Some ==> keys[j]->0 <= keys[i]->0,
        forall|j: int| 0 <= j < i && #[trigger] keys[j] is Some ==> keys[j]->0 < keys[i]->0,
{
    assert forall|j: int| 0 <= j < keys.len() && #[trigger] keys[j] is Some implies keys[j]->0
        <= keys[i]->0 by {
        if j < i {
        } else if j > i {
        }
    }
}

/// No key lies above `start` exactly when every key is at most `start`.
pub proof fn lemma_no_key_above(keys: Seq<Option<i64>>, start: i64)
    ensures
        !has_key_above(keys, start) <==> forall|j: int|
            0 <= j < keys.len() && #[trigger] keys[j] is Some ==> keys[j]->0 <= start,
{
}

/// Keeps a running maximum that starts at `start` and moves only to a
/// strictly larger key; returns where it last moved, if it ever did. That is
/// the first position of the largest key, when that key is above `start`.
pub fn first_max_above(keys: &Vec<Option<i64>>, start: i64) -> (r: Option<usize>)
    ensures
        r is None <==> !has_key_above(keys@, start),
        r matches Some(i) ==> is_first_max(keys@, start, i as int),
        r is None <==> forall|j: int|
            0 <= j < keys.len() && #[trigger] keys@[j] is Some ==> keys@[j]->0 <= start,
        r matches Some(i) ==> {
            &&& i < keys.len()
            &&& keys@[i as int] is Some
            &&& keys@[i as int]->0 > start
            &&& forall|j: int|
                0 <= j < keys.len() && #[trigger] keys@[j] is Some ==> keys@[j]->0 <= keys@[i as int]->0
            &&& forall|j: int|
                0 <= j < i && #[trigger] keys@[j] is Some ==> keys@[j]->0 < keys@[i as int]->0
        },
{
    let mut top = start;
    let mut best: Option<usize> = None;
    let mut i: usize = 0;
    while i < keys.len()
        invariant
            i <= keys.len(),
            best is None ==> top == start && forall|j: int|
                0 <= j < i && #[trigger] keys@[j] is Some ==> keys@[j]->0 <= start,
            best matches Some(b) ==> {
                &&& b < i
                &&& keys@[b as int] == Some(top)
                &&& top > start
                &&& forall|j: int| 0 <= j < b && #[trigger] keys@[j] is Some ==> keys@[j]->0 < top
                &&& forall|j: int| b < j < i && #[trigger] keys@[j] is Some ==> keys@[j]->0 <= top
            },
        decreases keys.len() - i,
    {
        if let Some(k) = keys[i] {
            if k > top {
                top = k;
                best = Some(i);
            }
        }
        i += 1;
    }
    proof {
        if best is None && has_key_above(keys@, start) {
            let w = choose|w: int| 0 <= w < keys@.len() && #[trigger] keys@[w] is Some && keys@[w]->0 > start;
            assert(keys@[w] is Some);
        }
        match best {
            Some(b) => lemma_first_max_is_largest(keys@, start, b as int),
            None => {},
        }
    }
    best
}

/// Shape `a` is tried before shape `b`: a larger key first, and of equal
/// keys the later shape first.
pub open spec fn goes_before(keys: Seq<usize>, a: int, b: int) -> bool {
    keys[a] > keys[b] || (keys[a] == keys[b] && a > b)
}

/// `order` lists positions of `keys`, as many as there are keys, each earlier
/// one going before each later one.
pub open spec fn is_placement_order(keys: Seq<usize>, order: Seq<usize>) -> bool {
    &&& order.len() == keys.len()
    &&& forall|k: int| 0 <= k < order.len() ==> #[trigger] order[k] < keys.len()
    &&& forall|k: int, l: int|
        0 <= k < l < order.len() ==> goes_before(keys, #[trigger] order[k] as int, #[trigger] order[l] as int)
}

/// Every shape is tried exactly once: a placement order holds each position
/// of the keys, and no position twice.
pub proof fn lemma_placement_order_is_permutation(keys: Seq<usize>, order: Seq<usize>)
    requires
        is_placement_order(keys, order),
    ensures
        order.no_duplicates(),
        forall|j: usize| j < keys.len() ==> #[trigger] order.contains(j),
{
    let n = keys.len() as int;
    assert(order.no_duplicates()) by {
        assert forall|k: int, l: int| 0 <= k < order.len() && 0 <= l < order.len() && k != l implies order[k] != order[l] by {
            if k < l {
                assert(goes_before(keys, order[k] as int, order[l] as int));
            } else {
                assert(goes_before(keys, order[l] as int, order[k] as int));
            }
        }
    }
    let ints = order.map_values(|v: usize| v as int);
    assert(ints.no_duplicates()) by {
        assert forall|k: int, l: int| 0 <= k < ints.len() && 0 <= l < ints.len() && k != l implies ints[k] != ints[l] by {
            assert(order[k] != order[l]);
        }
    }
    ints.unique_seq_to_set();
    vstd::set_lib::lemma_int_range(0, n);
    let range = vstd::set_lib::set_int_range(0, n);
    assert(ints.to_set().subset_of(range)) by {
        assert forall|v: int| ints.to_set().contains(v) implies range.contains(v) by {
            let k = choose|k: int| 0 <= k < ints.len() && ints[k] == v;
            assert(order[k] < keys.len());
        }
    }
    vstd::set_lib::lemma_subset_equality(ints.to_set(), range);
    assert forall|j: usize| j < keys.len() implies #[trigger] order.contains(j) by {
        assert(range.contains(j as int));
        assert(ints.to_set().contains(j as int));
        let k = choose|k: int| 0 <= k < ints.len() && ints[k] == j as int;
        assert(order[k] == j);
    }
}

/// A placement order puts larger keys first, and of equal keys the later
/// position first.
pub proof fn lemma_placement_order_descending(keys: Seq<usize>, order: Seq<usize>)
    requires
        is_placement_order(keys, order),
    ensures
        forall|k: int, l: int|
            0 <= k < l < order.len() ==> keys[#[trigger] order[k] as int] >= keys[
                #[trigger] order[l] as int],
        forall|k: int, l: int|
            0 <= k < l < order.len() && keys[#[trigger] order[k] as int] == keys[
                #[trigger] order[l] as int] ==> order[k] > order[l],
{
    assert forall|k: int, l: int| 0 <= k < l < order.len() implies keys[#[trigger] order[k] as int]
        >= keys[#[trigger] order[l] as int] && (keys[order[k] as int] == keys[order[l] as int]
        ==> order[k] > order[l]) by {
        assert(goes_before(keys, order[k] as int, order[l] as int));
    }
}

/// The order in which the shapes are tried: sorted by key, stably, then
/// reversed, so the largest key comes first and equal keys come last-first.
/// The result lists every position exactly once.
pub fn placement_order(keys: &Vec<usize>) -> (order: Vec<usize>)
    ensures
        is_placement_order(keys@, order@),
        order.len() == keys.len(),
        forall|k: int| 0 <= k < order.len() ==> #[trigger] order@[k] < keys.len(),
        forall|k: int, l: int|
            0 <= k < l < order.len() ==> keys@[#[trigger] order@[k] as int] >= keys@[
                #[trigger] order@[l] as int],
        forall|k: int, l: int|
            0 <= k < l < order.len() && keys@[#[trigger] order@[k] as int] == keys@[
                #[trigger] order@[l] as int] ==> order@[k] > order@[l],
{
    let mut order: Vec<usize> = Vec::new();
    let mut i: usize = 0;
    while i < keys.len()
        invariant
            i <= keys.len(),
            order.len() == i,
            forall|k: int| 0 <= k < order.len() ==> #[trigger] order@[k] < i,
            forall|k: int, l: int|
                0 <= k < l < order.len() ==> goes_before(keys@, #[trigger] order@[k] as int, #[trigger] order@[l] as int),
        decreases keys.len() - i,
    {
        let mut p: usize = 0;
        while p < order.len() && keys[order[p]] > keys[i]
            invariant
                p <= order.len(),
                order.len() == i,
                i < keys.len(),
                forall|k: int| 0 <= k < order.len() ==> #[trigger] order@[k] < i,
                forall|k: int| 0 <= k < p ==> keys@[#[trigger] order@[k] as int] > keys@[i as int],
            decreases order.len() - p,
        {
            p += 1;
        }
        let ghost old_order = order@;
        order.insert(p, i);
        proof {
            old_order.insert_ensures(p as int, i);
            assert forall|k: int, l: int|
                0 <= k < l < order.len() implies goes_before(keys@, #[trigger] order@[k] as int, #[trigger] order@[l] as int) by {
                if l < p {
                    assert(order@[k] == old_order[k] && order@[l] == old_order[l]);
                } else if l == p {
                    assert(order@[k] == old_order[k]);
                } else if k < p {
                    assert(order@[k] == old_order[k] && order@[l] == old_order[l - 1]);
                } else if k == p {
                    assert(order@[l] == old_order[l - 1]);
                    assert(goes_before(keys@, old_order[p as int] as int, old_order[l - 1] as int)
                        || p == l - 1);
                } else {
                    assert(order@[k] == old_order[k - 1] && order@[l] == old_order[l - 1]);
                }
            }
        }
        i += 1;
    }
    proof {
        lemma_placement_order_descending(keys@, order@);
    }
    order
}

} // verus!
