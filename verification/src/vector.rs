//! Integer vectors in the plane, integer square roots, and the scaling of a
//! direction to a given length.

use vstd::prelude::*;

verus! {

/// A point or a displacement in the plane. Positions and extents count
/// thousandths of a world unit, velocities thousandths of a unit per second.
#[derive(Clone, Copy, Debug, PartialEq, Eq, Structural)]
pub struct Vec2 {
    pub x: i32,
    pub y: i32,
}

/// `r` is the square root of `n`, rounded down.
pub open spec fn is_int_sqrt(n: nat, r: nat) -> bool {
    r * r <= n && n < (r + 1) * (r + 1)
}

/// The square root of `n`, rounded down.
pub open spec fn int_sqrt(n: nat) -> nat {
    choose|r: nat| is_int_sqrt(n, r)
}

/// `v` brought into the range of `i32`.
pub open spec fn clamp_i32(v: int) -> int {
    if v < i32::MIN as int {
        i32::MIN as int
    } else if v > i32::MAX as int {
        i32::MAX as int
    } else {
        v
    }
}

/// The squared length of `(dx, dy)`.
pub open spec fn norm_squared(dx: int, dy: int) -> int {
    dx * dx + dy * dy
}

/// One component of a vector scaled to length `magnitude`: `d * magnitude`
/// divided by the length whose square is `norm_sq`, rounded toward zero.
pub open spec fn scaled_component(d: int, norm_sq: int, magnitude: int) -> int {
    let m = int_sqrt((((d * magnitude) * (d * magnitude)) / norm_sq) as nat) as int;
    if d < 0 {
        -m
    } else {
        m
    }
}

/// The vector along `(dx, dy)` with length `magnitude`, each component
/// rounded toward zero. `(dx, dy)` is not the zero vector.
pub open spec fn scaled(dx: int, dy: int, magnitude: int) -> (int, int) {
    (
        scaled_component(dx, norm_squared(dx, dy), magnitude),
        scaled_component(dy, norm_squared(dx, dy), magnitude),
    )
}

/// The velocity of length `speed` that leads from `from` towards `to`, each
/// component kept within `i32`, or `None` where the two points coincide.
pub open spec fn aim(from: Vec2, to: Vec2, speed: int) -> Option<Vec2> {
    let dx = to.x - from.x;
    let dy = to.y - from.y;
    if dx == 0 && dy == 0 {
        None
    } else {
        let (vx, vy) = scaled(dx, dy, speed);
        Some(Vec2 { x: clamp_i32(vx) as i32, y: clamp_i32(vy) as i32 })
    }
}

/// A number has at most one rounded-down square root.
pub proof fn lemma_int_sqrt_unique(n: nat, a: nat, b: nat)
    requires
        is_int_sqrt(n, a),
        is_int_sqrt(n, b),
    ensures
        a == b,
{
    if a < b {
        assert((a + 1) * (a + 1) <= b * b) by (nonlinear_arith)
            requires
                a + 1 <= b,
        ;
    }
    if b < a {
        assert((b + 1) * (b + 1) <= a * a) by (nonlinear_arith)
            requires
                b + 1 <= a,
        ;
    }
}

/// Whatever meets the definition of the rounded-down square root is it.
pub proof fn lemma_int_sqrt_is(n: nat, r: nat)
    requires
        is_int_sqrt(n, r),
    ensures
        int_sqrt(n) == r,
{
    lemma_int_sqrt_unique(n, int_sqrt(n), r);
}

/// Every number has a rounded-down square root.
pub proof fn lemma_int_sqrt_exists(n: nat)
    ensures
        is_int_sqrt(n, int_sqrt(n)),
    decreases n,
{
    if n == 0 {
        assert(0nat * 0nat == 0 && (0nat + 1) * (0nat + 1) == 1) by (nonlinear_arith);
        assert(is_int_sqrt(0, 0));
    } else {
        lemma_int_sqrt_exists((n - 1) as nat);
        let r = int_sqrt((n - 1) as nat);
        if (r + 1) * (r + 1) <= n {
            assert(n < (r + 2) * (r + 2)) by (nonlinear_arith)
                requires
                    n - 1 < (r + 1) * (r + 1),
                    0 <= r,
            ;
            assert(is_int_sqrt(n, r + 1));
        } else {
            assert(r * r <= n);
            assert(is_int_sqrt(n, r));
        }
    }
}

/// The size of `v`.
pub open spec fn magnitude_of(v: int) -> int {
    if v < 0 {
        -v
    } else {
        v
    }
}

/// A scaled component is exact up to rounding: its square times the squared
/// length of the direction is at most the square of `d * magnitude`, and
/// with a size one larger it would be more.
pub proof fn lemma_scaled_component(d: int, norm_sq: int, magnitude: int)
    requires
        norm_sq > 0,
    ensures
        ({
            let m = magnitude_of(scaled_component(d, norm_sq, magnitude));
            &&& m * m * norm_sq <= (d * magnitude) * (d * magnitude)
            &&& (d * magnitude) * (d * magnitude) < (m + 1) * (m + 1) * norm_sq
            &&& d >= 0 ==> scaled_component(d, norm_sq, magnitude) >= 0
            &&& d <= 0 ==> scaled_component(d, norm_sq, magnitude) <= 0
        }),
{
    let square = (d * magnitude) * (d * magnitude);
    assert(square >= 0) by (nonlinear_arith)
        requires
            square == (d * magnitude) * (d * magnitude),
    ;
    let q = square / norm_sq;
    vstd::arithmetic::div_mod::lemma_fundamental_div_mod(square, norm_sq);
    vstd::arithmetic::div_mod::lemma_mod_bound(square, norm_sq);
    vstd::arithmetic::div_mod::lemma_div_pos_is_pos(square, norm_sq);
    lemma_int_sqrt_exists(q as nat);
    let m = int_sqrt(q as nat) as int;
    assert(magnitude_of(scaled_component(d, norm_sq, magnitude)) == m);
    assert(m * m * norm_sq <= square) by (nonlinear_arith)
        requires
            m * m <= q,
            norm_sq > 0,
            square == norm_sq * q + square % norm_sq,
            0 <= square % norm_sq,
    ;
    assert(square < (m + 1) * (m + 1) * norm_sq) by (nonlinear_arith)
        requires
            q + 1 <= (m + 1) * (m + 1),
            norm_sq > 0,
            square == norm_sq * q + square % norm_sq,
            square % norm_sq < norm_sq,
    ;
    if d == 0 {
        assert(square == 0) by (nonlinear_arith)
            requires
                square == (d * magnitude) * (d * magnitude),
                d == 0,
        ;
        assert(m == 0) by (nonlinear_arith)
            requires
                m * m * norm_sq <= 0,
                norm_sq > 0,
                0 <= m,
        ;
    }
}

/// A scaled vector has the length asked for, up to rounding: it is never
/// longer, and with both components one larger in size it would be longer.
/// Each component points the way its direction does.
pub proof fn lemma_scaled_length(dx: int, dy: int, magnitude: int)
    requires
        dx != 0 || dy != 0,
    ensures
        ({
            let (vx, vy) = scaled(dx, dy, magnitude);
            let (mx, my) = (magnitude_of(vx), magnitude_of(vy));
            &&& vx * vx + vy * vy <= magnitude * magnitude
            &&& magnitude * magnitude < (mx + 1) * (mx + 1) + (my + 1) * (my + 1)
            &&& dx >= 0 ==> vx >= 0
            &&& dx <= 0 ==> vx <= 0
            &&& dy >= 0 ==> vy >= 0
            &&& dy <= 0 ==> vy <= 0
        }),
{
    let n = norm_squared(dx, dy);
    assert(n > 0) by (nonlinear_arith)
        requires
            n == dx * dx + dy * dy,
            dx != 0 || dy != 0,
    ;
    lemma_scaled_component(dx, n, magnitude);
    lemma_scaled_component(dy, n, magnitude);
    let (vx, vy) = scaled(dx, dy, magnitude);
    let (mx, my) = (magnitude_of(vx), magnitude_of(vy));
    let sx = (dx * magnitude) * (dx * magnitude);
    let sy = (dy * magnitude) * (dy * magnitude);
    assert(sx + sy == magnitude * magnitude * n) by (nonlinear_arith)
        requires
            sx == (dx * magnitude) * (dx * magnitude),
            sy == (dy * magnitude) * (dy * magnitude),
            n == dx * dx + dy * dy,
    ;
    assert(vx * vx == mx * mx && vy * vy == my * my) by (nonlinear_arith)
        requires
            mx == vx || mx == -vx,
            my == vy || my == -vy,
    ;
    assert(mx * mx + my * my <= magnitude * magnitude) by (nonlinear_arith)
        requires
            mx * mx * n <= sx,
            my * my * n <= sy,
            sx + sy == magnitude * magnitude * n,
            n > 0,
    ;
    assert(magnitude * magnitude < (mx + 1) * (mx + 1) + (my + 1) * (my + 1)) by (nonlinear_arith)
        requires
            sx < (mx + 1) * (mx + 1) * n,
            sy < (my + 1) * (my + 1) * n,
            sx + sy == magnitude * magnitude * n,
            n > 0,
    ;
}

/// The square root of `n`, rounded down.
pub fn isqrt(n: u128) -> (r: u64)
    ensures
        is_int_sqrt(n as nat, r as nat),
        r == int_sqrt(n as nat),
{
    let mut lo: u128 = 0;
    let mut hi: u128 = 0x1_0000_0000_0000_0000u128;
    assert(n < hi * hi) by (nonlinear_arith)
        requires
            hi == 0x1_0000_0000_0000_0000u128,
            n <= 0xFFFF_FFFF_FFFF_FFFF_FFFF_FFFF_FFFF_FFFFu128,
    ;
    while hi - lo > 1
        invariant
            lo < hi <= 0x1_0000_0000_0000_0000u128,
            lo * lo <= n,
            n < hi * hi,
        decreases hi - lo,
    {
        let mid: u128 = lo + (hi - lo) / 2;
        assert(mid * mid <= 0xFFFF_FFFF_FFFF_FFFF_FFFF_FFFF_FFFF_FFFFu128) by (nonlinear_arith)
            requires
                mid <= 0xFFFF_FFFF_FFFF_FFFFu128,
        ;
        if mid * mid <= n {
            lo = mid;
        } else {
            hi = mid;
        }
    }
    proof {
        lemma_int_sqrt_is(n as nat, lo as nat);
    }
    lo as u64
}

/// Scales one component: see [`scaled_component`].
fn scale_component(d: i64, norm_sq: u128, magnitude: u64) -> (r: i64)
    requires
        -0x1_0000_0000 < d < 0x1_0000_0000,
        magnitude <= 0x7FFF_FFFF_FFFF_FFFF,
        -0xFFFF_FFFF_FFFF_FFFF <= d * magnitude <= 0xFFFF_FFFF_FFFF_FFFF,
        norm_sq >= d * d,
        norm_sq > 0,
    ensures
        r == scaled_component(d as int, norm_sq as int, magnitude as int),
        -magnitude <= r <= magnitude,
{
    let size: u64 = if d < 0 {
        (-d) as u64
    } else {
        d as u64
    };
    assert(size * magnitude <= 0xFFFF_FFFF_FFFF_FFFF) by (nonlinear_arith)
        requires
            size == d || size == -d,
            -0xFFFF_FFFF_FFFF_FFFF <= d * magnitude <= 0xFFFF_FFFF_FFFF_FFFF,
    ;
    let a: u128 = (size as u128) * (magnitude as u128);
    assert(a * a <= 0xFFFF_FFFF_FFFF_FFFF_FFFF_FFFF_FFFF_FFFFu128) by (nonlinear_arith)
        requires
            a <= 0xFFFF_FFFF_FFFF_FFFFu128,
    ;
    let q: u128 = (a * a) / norm_sq;
    let m: u64 = isqrt(q);
    proof {
        let dm = d as int * magnitude as int;
        assert(dm * dm == a * a) by (nonlinear_arith)
            requires
                dm == d * magnitude,
                a == size * magnitude,
                size == d || size == -d,
        ;
        assert(size * size == d * d) by (nonlinear_arith)
            requires
                size == d || size == -d,
        ;
        lemma_root_of_quotient_bounded(size as int, magnitude as int, norm_sq as int, m as int);
    }
    if d < 0 {
        -(m as i64)
    } else {
        m as i64
    }
}

/// Where `m * m` is at most `(size * magnitude)^2 / norm_sq` and `norm_sq` is
/// at least `size^2`, `m` is at most `magnitude`.
proof fn lemma_root_of_quotient_bounded(size: int, magnitude: int, norm_sq: int, m: int)
    requires
        0 <= size,
        0 <= magnitude,
        0 <= m,
        norm_sq > 0,
        norm_sq >= size * size,
        m * m <= ((size * magnitude) * (size * magnitude)) / norm_sq,
    ensures
        m <= magnitude,
{
    let a = size * magnitude;
    let q = (a * a) / norm_sq;
    if size == 0 {
        assert(a == 0);
        assert(a * a == 0);
        assert(q == 0);
        assert(m == 0) by (nonlinear_arith)
            requires
                m * m <= 0,
                0 <= m,
        ;
    } else {
        assert(q * norm_sq <= a * a) by {
            vstd::arithmetic::div_mod::lemma_fundamental_div_mod(a * a, norm_sq);
            vstd::arithmetic::div_mod::lemma_mod_bound(a * a, norm_sq);
            assert(norm_sq * q == q * norm_sq) by (nonlinear_arith);
        }
        assert(0 <= q) by {
            assert(0 <= a * a) by (nonlinear_arith);
            vstd::arithmetic::div_mod::lemma_div_pos_is_pos(a * a, norm_sq);
        }
        assert((m * m) * (size * size) <= q * norm_sq) by (nonlinear_arith)
            requires
                0 <= m * m <= q,
                0 <= size * size <= norm_sq,
        ;
        assert(a * a == (magnitude * magnitude) * (size * size)) by (nonlinear_arith)
            requires
                a == size * magnitude,
        ;
        assert(size * size > 0) by (nonlinear_arith)
            requires
                size > 0,
        ;
        assert(m * m <= magnitude * magnitude) by (nonlinear_arith)
            requires
                (m * m) * (size * size) <= (magnitude * magnitude) * (size * size),
                size * size > 0,
        ;
        assert(m <= magnitude) by (nonlinear_arith)
            requires
                m * m <= magnitude * magnitude,
                0 <= m,
                0 <= magnitude,
        ;
    }
}

/// The vector along the difference `(dx, dy)` of two points, with length
/// `magnitude`: see [`scaled`].
fn scale_to(dx: i64, dy: i64, magnitude: u32) -> (r: (i64, i64))
    requires
        -0x1_0000_0000 < dx < 0x1_0000_0000,
        -0x1_0000_0000 < dy < 0x1_0000_0000,
        dx != 0 || dy != 0,
    ensures
        (r.0 as int, r.1 as int) == scaled(dx as int, dy as int, magnitude as int),
        -magnitude <= r.0 <= magnitude,
        -magnitude <= r.1 <= magnitude,
{
    let n: u128 = square(dx) + square(dy);
    assert(n > 0) by (nonlinear_arith)
        requires
            n == dx * dx + dy * dy,
            dx != 0 || dy != 0,
    ;
    assert(n >= dx * dx && n >= dy * dy) by (nonlinear_arith)
        requires
            n == dx * dx + dy * dy,
    ;
    assert(-0xFFFF_FFFF_FFFF_FFFF <= dx * magnitude <= 0xFFFF_FFFF_FFFF_FFFF
        && -0xFFFF_FFFF_FFFF_FFFF <= dy * magnitude <= 0xFFFF_FFFF_FFFF_FFFF) by (nonlinear_arith)
        requires
            -0x1_0000_0000 < dx < 0x1_0000_0000,
            -0x1_0000_0000 < dy < 0x1_0000_0000,
            0 <= magnitude <= 0xFFFF_FFFF,
    ;
    let vx: i64 = scale_component(dx, n, magnitude as u64);
    let vy: i64 = scale_component(dy, n, magnitude as u64);
    (vx, vy)
}

/// The step of length `magnitude` along a direction whose components are
/// -1, 0 or 1: see [`scaled`].
pub(crate) fn step_along(dx: i8, dy: i8, magnitude: u64) -> (r: (i64, i64))
    requires
        -1 <= dx <= 1,
        -1 <= dy <= 1,
        dx != 0 || dy != 0,
        magnitude <= 0x7FFF_FFFF_FFFF_FFFF,
    ensures
        (r.0 as int, r.1 as int) == scaled(dx as int, dy as int, magnitude as int),
        -magnitude <= r.0 <= magnitude,
        -magnitude <= r.1 <= magnitude,
{
    let n: u128 = square(dx as i64) + square(dy as i64);
    assert(n > 0 && n >= dx * dx && n >= dy * dy) by (nonlinear_arith)
        requires
            n == dx * dx + dy * dy,
            dx != 0 || dy != 0,
    ;
    assert(-0xFFFF_FFFF_FFFF_FFFF <= dx * magnitude <= 0xFFFF_FFFF_FFFF_FFFF
        && -0xFFFF_FFFF_FFFF_FFFF <= dy * magnitude <= 0xFFFF_FFFF_FFFF_FFFF) by (nonlinear_arith)
        requires
            -1 <= dx <= 1,
            -1 <= dy <= 1,
            0 <= magnitude <= 0x7FFF_FFFF_FFFF_FFFF,
    ;
    let vx: i64 = scale_component(dx as i64, n, magnitude);
    let vy: i64 = scale_component(dy as i64, n, magnitude);
    (vx, vy)
}

/// The square of a difference of two coordinates.
fn square(d: i64) -> (r: u128)
    requires
        -0x1_0000_0000 < d < 0x1_0000_0000,
    ensures
        r == d * d,
        r <= 0xFFFF_FFFF * 0xFFFF_FFFF,
{
    let size: u64 = if d < 0 {
        (-d) as u64
    } else {
        d as u64
    };
    assert(size * size <= 0xFFFF_FFFF * 0xFFFF_FFFF && size * size == d * d) by (nonlinear_arith)
        requires
            size <= 0xFFFF_FFFF,
            size == d || size == -d,
    ;
    (size as u128) * (size as u128)
}

impl Vec2 {
    /// The point `(x, y)`.
    pub fn new(x: i32, y: i32) -> (r: Vec2)
        ensures
            r.x == x,
            r.y == y,
    {
        Vec2 { x, y }
    }

    /// The origin.
    pub fn zero() -> (r: Vec2)
        ensures
            r.x == 0,
            r.y == 0,
    {
        Vec2 { x: 0, y: 0 }
    }

    /// The velocity of length `speed` that leads from this point towards
    /// `target`, or `None` where the two coincide.
    pub fn aim_at(self, target: Vec2, speed: u32) -> (r: Option<Vec2>)
        ensures
            r == aim(self, target, speed as int),
            r is None <==> self == target,
            r matches Some(v) ==> -speed <= v.x <= speed && -speed <= v.y <= speed,
    {
        let dx: i64 = target.x as i64 - self.x as i64;
        let dy: i64 = target.y as i64 - self.y as i64;
        if dx == 0 && dy == 0 {
            None
        } else {
            let (vx, vy) = scale_to(dx, dy, speed);
            Some(Vec2 { x: add_clamped(0, vx), y: add_clamped(0, vy) })
        }
    }

    /// This point moved by `(dx, dy)`, each coordinate kept within `i32`.
    pub fn moved_by(self, dx: i64, dy: i64) -> (r: Vec2)
        ensures
            r.x == clamp_i32(self.x + dx),
            r.y == clamp_i32(self.y + dy),
    {
        Vec2 { x: add_clamped(self.x, dx), y: add_clamped(self.y, dy) }
    }
}

/// `base + delta`, kept within `i32`.
fn add_clamped(base: i32, delta: i64) -> (r: i32)
    ensures
        r == clamp_i32(base + delta),
{
    let sum: i128 = base as i128 + delta as i128;
    if sum < i32::MIN as i128 {
        i32::MIN
    } else if sum > i32::MAX as i128 {
        i32::MAX
    } else {
        sum as i32
    }
}

} // verus!
