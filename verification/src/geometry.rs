//! Grid geometry: clamping, straight walks between cells, and the alignment
//! of two direction vectors.

use vstd::prelude::*;

verus! {

/// `v` forced into the interval from `low` to `high`.
pub open spec fn clamped(v: int, low: int, high: int) -> int {
    if v < low {
        low
    } else if v > high {
        high
    } else {
        v
    }
}

/// The distance between two coordinates.
pub open spec fn gap(a: int, b: int) -> int {
    if a <= b {
        b - a
    } else {
        a - b
    }
}

/// The Chebyshev distance between two cells: the number of king's moves from
/// one to the other.
pub open spec fn distance(a: (usize, usize), b: (usize, usize)) -> int {
    if gap(a.0 as int, b.0 as int) >= gap(a.1 as int, b.1 as int) {
        gap(a.0 as int, b.0 as int)
    } else {
        gap(a.1 as int, b.1 as int)
    }
}

/// The coordinate reached from `from` after `steps` unit steps toward `to`,
/// stopping at `to`.
pub open spec fn toward(from: int, to: int, steps: int) -> int {
    if steps <= 0 {
        from
    } else if gap(from, to) <= steps {
        to
    } else if from < to {
        from + steps
    } else {
        from - steps
    }
}

/// The cell reached from `from` after `steps` steps of a straight walk to
/// `to`, in which each step moves both coordinates one unit closer.
pub open spec fn waypoint(from: (usize, usize), to: (usize, usize), steps: int) -> (usize, usize) {
    (
        toward(from.0 as int, to.0 as int, steps) as usize,
        toward(from.1 as int, to.1 as int, steps) as usize,
    )
}

/// Whether the walk from `from` to `to` enters the cell `(x, y)` within its
/// first `steps` steps. The starting cell is not entered.
pub open spec fn visits(from: (usize, usize), to: (usize, usize), steps: int, x: int, y: int) -> bool {
    exists|k: int|
        1 <= k <= steps && (#[trigger] waypoint(from, to, k)).0 == x && waypoint(from, to, k).1
            == y
}

/// The vector from `origin` to `target`.
pub open spec fn offset_between(origin: (usize, usize), target: (usize, usize)) -> (int, int) {
    (target.0 as int - origin.0 as int, target.1 as int - origin.1 as int)
}

/// The dot product of two direction vectors.
pub open spec fn dot(a: (i32, i32), b: (i32, i32)) -> int {
    a.0 as int * b.0 as int + a.1 as int * b.1 as int
}

/// Whether two directions agree: the cosine of the angle between them
/// exceeds 3/4. With `d` the dot product this is `d > 0` and
/// `16 d^2 > 9 |a|^2 |b|^2`; a zero vector agrees with nothing.
pub open spec fn aligned(a: (i32, i32), b: (i32, i32)) -> bool {
    dot(a, b) > 0 && 16 * (dot(a, b) * dot(a, b)) > 9 * (dot(a, a) * dot(b, b))
}

/// A walk closes in on its target by one cell per step and is there after
/// as many steps as the distance: for every `k` up to the distance, the
/// waypoint after `k` steps is `distance - k` away from the target.
pub proof fn lemma_walk_approaches(from: (usize, usize), to: (usize, usize), k: int)
    requires
        0 <= k <= distance(from, to),
    ensures
        distance(waypoint(from, to, k), to) == distance(from, to) - k,
        waypoint(from, to, 0) == from,
        waypoint(from, to, distance(from, to)) == to,
{
}

/// No cell is entered twice: two different steps of a walk, neither beyond
/// the distance, end in different cells.
pub proof fn lemma_walk_never_returns(from: (usize, usize), to: (usize, usize), j: int, k: int)
    requires
        0 <= j < k <= distance(from, to),
    ensures
        waypoint(from, to, j) != waypoint(from, to, k),
{
    lemma_walk_approaches(from, to, j);
    lemma_walk_approaches(from, to, k);
}

/// One more step of a walk is one step from where the walk stands.
pub proof fn lemma_walk_composes(from: (usize, usize), to: (usize, usize), k: int)
    requires
        0 <= k,
    ensures
        waypoint(from, to, k + 1) == waypoint(waypoint(from, to, k), to, 1),
{
}

/// Moves a coordinate one unit toward `to`.
pub fn step_toward(from: usize, to: usize) -> (r: usize)
    ensures
        r == toward(from as int, to as int, 1),
{
    if from < to {
        from + 1
    } else if from > to {
        from - 1
    } else {
        from
    }
}

/// Adds `delta` to `v` and clamps the sum into `low..=high`.
pub fn clamp_into(v: usize, delta: i32, low: usize, high: usize) -> (r: usize)
    requires
        low <= high <= i32::MAX,
        v <= i32::MAX,
    ensures
        r == clamped(v as int + delta as int, low as int, high as int),
{
    let sum: i64 = v as i64 + delta as i64;
    if sum < low as i64 {
        low
    } else if sum > high as i64 {
        high
    } else {
        sum as usize
    }
}

/// The vector from `origin` to `target` as a direction. Both cells lie below
/// `2^31` on each axis, so the components fit.
pub fn direction_between(origin: (usize, usize), target: (usize, usize)) -> (r: (i32, i32))
    requires
        origin.0 <= i32::MAX,
        origin.1 <= i32::MAX,
        target.0 <= i32::MAX,
        target.1 <= i32::MAX,
    ensures
        (r.0 as int, r.1 as int) == offset_between(origin, target),
{
    let dx: i64 = target.0 as i64 - origin.0 as i64;
    let dy: i64 = target.1 as i64 - origin.1 as i64;
    (dx as i32, dy as i32)
}

} // verus!
