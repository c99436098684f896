//! Fixed-point world geometry.
//!
//! A world unit is divided into [`UNIT`] sub-units. A speed given in world
//! units per second, multiplied by a time in nanoseconds, is then a distance
//! in sub-units with nothing rounded away.

use vstd::prelude::*;

verus! {

/// Sub-units in one world unit.
pub const UNIT: i64 = 1_000_000_000;

/// Largest magnitude of a coordinate, in sub-units.
pub const WORLD_LIMIT: i64 = 1_000_000_000_000_000;

/// One more than the longest possible step that still has to be measured
/// against a distance: no two points of the world are this far apart.
pub const STEP_CAP: u128 = 0x10_0000_0000_0000;

/// A point of the world, in sub-units.
#[derive(Clone, Copy, Debug, PartialEq, Eq, Structural)]
pub struct Point {
    pub x: i64,
    pub y: i64,
}

/// `r` is the largest number whose square does not exceed `n`.
pub open spec fn is_isqrt(n: nat, r: nat) -> bool {
    r * r <= n < (r + 1) * (r + 1)
}

/// The integer square root: the largest `r` with `r * r <= n`.
pub open spec fn isqrt(n: nat) -> nat {
    choose|r: nat| is_isqrt(n, r)
}

/// The share `magnitude * step / len` of a displacement, rounded toward zero
/// and signed like `d`.
pub open spec fn scaled(d: int, step: nat, len: nat) -> int {
    if d >= 0 {
        (d * step) / (len as int)
    } else {
        -(((-d) * step) / (len as int))
    }
}

/// Distance covered in `delta` nanoseconds at `speed` world units per second,
/// in sub-units.
pub open spec fn travel(speed: u32, delta: u64) -> nat {
    (speed * delta) as nat
}

impl Point {
    /// Both coordinates lie within the world's limits.
    pub open spec fn in_world(self) -> bool {
        &&& -WORLD_LIMIT <= self.x <= WORLD_LIMIT
        &&& -WORLD_LIMIT <= self.y <= WORLD_LIMIT
    }

    /// Squared Euclidean distance to `other`.
    pub open spec fn dist2(self, other: Point) -> nat {
        ((other.x - self.x) * (other.x - self.x) + (other.y - self.y) * (other.y - self.y)) as nat
    }

    /// A step of length `step` from `self` covers the whole way to `to`.
    pub open spec fn reaches(self, to: Point, step: nat) -> bool {
        self.dist2(to) <= step * step
    }

    /// The point `step` sub-units along the straight line toward `to`.
    pub open spec fn stepped(self, to: Point, step: nat) -> Point {
        let len = isqrt(self.dist2(to));
        Point {
            x: (self.x + scaled(to.x - self.x, step, len)) as i64,
            y: (self.y + scaled(to.y - self.y, step, len)) as i64,
        }
    }

    /// Where a mover stands after one step toward `to`: on `to` itself when
    /// the step covers the remaining distance, else `step` further along.
    pub open spec fn advanced(self, to: Point, step: nat) -> Point {
        if self.reaches(to, step) {
            to
        } else {
            self.stepped(to, step)
        }
    }

    /// Tells whether the point lies within the world's limits.
    pub fn is_in_world(&self) -> (b: bool)
        ensures
            b == self.in_world(),
    {
        -WORLD_LIMIT <= self.x && self.x <= WORLD_LIMIT && -WORLD_LIMIT <= self.y && self.y
            <= WORLD_LIMIT
    }

    /// Squared Euclidean distance between two points of the world.
    pub fn distance_squared(&self, other: &Point) -> (d: u128)
        requires
            self.in_world(),
            other.in_world(),
        ensures
            d == self.dist2(*other),
            d <= 8_000_000_000_000_000_000_000_000_000_000,
    {
        let dx: u128 = abs_diff(self.x, other.x);
        let dy: u128 = abs_diff(self.y, other.y);
        proof {
            lemma_square_bound(dx as int, 2_000_000_000_000_000);
            lemma_square_bound(dy as int, 2_000_000_000_000_000);
            lemma_square_of_difference(self.x as int, other.x as int, dx as int);
            lemma_square_of_difference(self.y as int, other.y as int, dy as int);
        }
        dx * dx + dy * dy
    }

    /// Moves one step of length `step` toward `to`. The flag tells whether the
    /// step arrived.
    pub fn advance(&self, to: &Point, step: u128) -> (r: (Point, bool))
        requires
            self.in_world(),
            to.in_world(),
        ensures
            r.1 == self.reaches(*to, step as nat),
            r.0 == self.advanced(*to, step as nat),
            r.0.in_world(),
    {
        let d2 = self.distance_squared(to);
        if step >= STEP_CAP {
            proof {
                lemma_square_monotone(STEP_CAP as int, step as int);
            }
            return (*to, true);
        }
        proof {
            lemma_square_bound(step as int, STEP_CAP as int);
        }
        if d2 <= step * step {
            return (*to, true);
        }
        let len = integer_sqrt(d2);
        proof {
            lemma_step_within_length(step as int, len as int, d2 as int);
        }
        let x = shift_toward(self.x, to.x, step, len);
        let y = shift_toward(self.y, to.y, step, len);
        (Point { x, y }, false)
    }
}

/// Distance covered in `delta` nanoseconds at `speed` world units per second,
/// in sub-units.
pub fn step_length(speed: u32, delta: u64) -> (step: u128)
    ensures
        step == travel(speed, delta),
{
    assert(0 <= speed * delta <= 0xffff_ffff * 0xffff_ffff_ffff_ffff) by (nonlinear_arith)
        requires
            0 <= speed <= 0xffff_ffff,
            0 <= delta <= 0xffff_ffff_ffff_ffff,
    ;
    (speed as u128) * (delta as u128)
}

/// `|a - b|` for two coordinates of the world.
fn abs_diff(a: i64, b: i64) -> (d: u128)
    requires
        -WORLD_LIMIT <= a <= WORLD_LIMIT,
        -WORLD_LIMIT <= b <= WORLD_LIMIT,
    ensures
        d == if a <= b { b - a } else { a - b },
        d <= 2 * WORLD_LIMIT,
{
    if a <= b {
        (b - a) as u128
    } else {
        (a - b) as u128
    }
}

/// One coordinate of a step: `from` moved toward `to` by the share
/// `step / len` of their difference.
fn shift_toward(from: i64, to: i64, step: u128, len: u128) -> (r: i64)
    requires
        -WORLD_LIMIT <= from <= WORLD_LIMIT,
        -WORLD_LIMIT <= to <= WORLD_LIMIT,
        0 < len,
        step <= len,
        step < STEP_CAP,
    ensures
        r == from + scaled(to - from, step as nat, len as nat),
        -WORLD_LIMIT <= r <= WORLD_LIMIT,
{
    let d: u128 = abs_diff(from, to);
    proof {
        lemma_share_bounded(d as int, step as int, len as int);
        lemma_product_bound(d as int, 2 * WORLD_LIMIT, step as int, STEP_CAP as int);
    }
    let m: u128 = (d * step) / len;
    if from <= to {
        from + (m as i64)
    } else {
        from - (m as i64)
    }
}

/// The integer square root of `n`.
pub fn integer_sqrt(n: u128) -> (r: u128)
    requires
        n < 0x4000_0000_0000_0000_0000_0000_0000_0000,
    ensures
        r == isqrt(n as nat),
        r * r <= n < (r + 1) * (r + 1),
{
    let mut lo: u128 = 0;
    let mut hi: u128 = 0x8000_0000_0000_0000;
    proof {
        lemma_square_bound(hi as int, 0x8000_0000_0000_0000);
    }
    while hi - lo > 1
        invariant
            lo < hi <= 0x8000_0000_0000_0000,
            lo * lo <= n < hi * hi,
        decreases hi - lo,
    {
        let mid: u128 = lo + (hi - lo) / 2;
        proof {
            lemma_square_bound(mid as int, 0x8000_0000_0000_0000);
        }
        if mid * mid <= n {
            lo = mid;
        } else {
            hi = mid;
        }
    }
    proof {
        lemma_isqrt_is(n as nat, lo as nat);
    }
    lo
}

/// Any `r` with `r * r <= n < (r + 1) * (r + 1)` is the integer square root.
pub proof fn lemma_isqrt_is(n: nat, r: nat)
    requires
        is_isqrt(n, r),
    ensures
        isqrt(n) == r,
{
    let q = isqrt(n);
    assert(is_isqrt(n, q));
    if q < r {
        lemma_square_monotone((q + 1) as int, r as int);
    } else if r < q {
        lemma_square_monotone((r + 1) as int, q as int);
    }
}

/// Every number has an integer square root.
pub proof fn lemma_isqrt_exists(n: nat)
    ensures
        is_isqrt(n, isqrt(n)),
    decreases n,
{
    if n == 0 {
        assert(0nat * 0nat == 0 && (0nat + 1) * (0nat + 1) == 1) by (nonlinear_arith);
        assert(is_isqrt(0, 0));
    } else {
        lemma_isqrt_exists((n - 1) as nat);
        let r = isqrt((n - 1) as nat);
        assert(is_isqrt((n - 1) as nat, r));
        if (r + 1) * (r + 1) <= n {
            lemma_square_monotone((r + 1) as int, (r + 2) as int);
            assert((r + 1) * (r + 1) < (r + 2) * (r + 2)) by (nonlinear_arith)
                requires
                    r >= 0,
            ;
            assert(is_isqrt(n, r + 1));
        } else {
            assert(is_isqrt(n, r));
        }
    }
}

/// A step that does not reach its goal ends inside the world, between where
/// it began and the goal, and does not pass the goal on either axis.
pub proof fn lemma_stepped_in_world(from: Point, to: Point, step: nat)
    requires
        from.in_world(),
        to.in_world(),
        !from.reaches(to, step),
    ensures
        from.stepped(to, step).in_world(),
        from.stepped(to, step).x == from.x + scaled(to.x - from.x, step, isqrt(from.dist2(to))),
        from.stepped(to, step).y == from.y + scaled(to.y - from.y, step, isqrt(from.dist2(to))),
{
    let d2 = from.dist2(to);
    let len = isqrt(d2);
    lemma_isqrt_exists(d2);
    lemma_step_within_length(step as int, len as int, d2 as int);
    lemma_scaled_bounded(to.x - from.x, step, len);
    lemma_scaled_bounded(to.y - from.y, step, len);
}

/// A share of a displacement points the same way and is no longer than it.
pub proof fn lemma_scaled_bounded(d: int, step: nat, len: nat)
    requires
        0 < len,
        step <= len,
    ensures
        d >= 0 ==> 0 <= scaled(d, step, len) <= d,
        d <= 0 ==> d <= scaled(d, step, len) <= 0,
{
    if d >= 0 {
        lemma_share_bounded(d, step as int, len as int);
    } else {
        lemma_share_bounded(-d, step as int, len as int);
    }
}

/// The magnitude of an integer.
pub open spec fn magnitude(d: int) -> nat {
    if d >= 0 {
        d as nat
    } else {
        (-d) as nat
    }
}

/// Two points are level: they agree in one coordinate, so that the straight
/// line between them runs along an axis.
pub open spec fn level(a: Point, b: Point) -> bool {
    a.x == b.x || a.y == b.y
}

/// The distance between two points measured along the axes. For level
/// points it is their distance.
pub open spec fn gap(a: Point, b: Point) -> nat {
    magnitude(b.x - a.x) + magnitude(b.y - a.y)
}

/// Between level points a step reaches its goal exactly when it is at least
/// as long as the gap.
pub proof fn lemma_reach_along_axis(from: Point, to: Point, step: nat)
    requires
        level(from, to),
    ensures
        from.reaches(to, step) <==> gap(from, to) <= step,
        from.dist2(to) == gap(from, to) * gap(from, to),
{
    let g = gap(from, to);
    let dx = to.x - from.x;
    let dy = to.y - from.y;
    assert(dx * dx + dy * dy == g * g) by (nonlinear_arith)
        requires
            dx == 0 || dy == 0,
            g == (if dx >= 0 { dx } else { -dx }) + (if dy >= 0 { dy } else { -dy }),
    ;
    assert(g * g <= step * step <==> g <= step) by (nonlinear_arith)
        requires
            g >= 0,
            step >= 0,
    ;
}

/// Along a single axis a step is exact: a mover that is level with its goal
/// and does not reach it stays level with it and ends exactly `step` nearer.
pub proof fn lemma_step_along_axis(from: Point, to: Point, step: nat)
    requires
        from.in_world(),
        to.in_world(),
        level(from, to),
        !from.reaches(to, step),
    ensures
        step < gap(from, to),
        gap(from.stepped(to, step), to) == gap(from, to) - step,
        from.x == to.x ==> from.stepped(to, step).x == to.x,
        from.y == to.y ==> from.stepped(to, step).y == to.y,
        from.stepped(to, step).in_world(),
{
    let g = gap(from, to);
    lemma_reach_along_axis(from, to, step);
    assert(is_isqrt(g * g, g)) by (nonlinear_arith);
    lemma_isqrt_is(g * g, g);
    lemma_stepped_in_world(from, to, step);
    let gi = g as int;
    assert((gi * step) / gi == step && (0int * step) / gi == 0) by (nonlinear_arith)
        requires
            gi > 0,
    ;
}

/// Squaring keeps the order of non-negative numbers.
pub proof fn lemma_square_monotone(a: int, b: int)
    by (nonlinear_arith)
    requires
        0 <= a <= b,
    ensures
        a * a <= b * b,
{
}

proof fn lemma_square_bound(a: int, bound: int)
    by (nonlinear_arith)
    requires
        0 <= a <= bound,
    ensures
        0 <= a * a <= bound * bound,
{
}

proof fn lemma_product_bound(a: int, amax: int, b: int, bmax: int)
    by (nonlinear_arith)
    requires
        0 <= a <= amax,
        0 <= b <= bmax,
    ensures
        0 <= a * b <= amax * bmax,
{
}

proof fn lemma_square_of_difference(a: int, b: int, d: int)
    by (nonlinear_arith)
    requires
        d == if a <= b { b - a } else { a - b },
    ensures
        d * d == (b - a) * (b - a),
{
}

/// A step that does not cover the distance is no longer than the distance's
/// integer square root, which is then positive.
proof fn lemma_step_within_length(step: int, len: int, d2: int)
    by (nonlinear_arith)
    requires
        0 <= step,
        0 <= len,
        step * step < d2,
        len * len <= d2 < (len + 1) * (len + 1),
    ensures
        0 < len,
        step <= len,
{
}

/// The share `d * step / len` of a magnitude `d` never exceeds `d` when
/// `step <= len`.
proof fn lemma_share_bounded(d: int, step: int, len: int)
    by (nonlinear_arith)
    requires
        0 <= d,
        0 <= step <= len,
        0 < len,
    ensures
        0 <= (d * step) / len <= d,
{
}

} // verus!
