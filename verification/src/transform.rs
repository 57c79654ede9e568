//! The viewport transform: an independent-per-axis affine mapping from a
//! canvas-space rectangle onto a screen-space rectangle, with no rotation
//! or skew. All arithmetic is exact fixed-point integer arithmetic; a
//! mapped coordinate is clamped into the engine's working range, so every
//! operation is total. The inverse mapping swaps the two rectangles, and
//! [`lemma_transform_inverse_x`] bounds the round-trip error exactly.

use vstd::prelude::*;
use vstd::arithmetic::div_mod::{
    lemma_fundamental_div_mod, lemma_div_pos_is_pos, lemma_div_is_ordered,
};
use crate::scene::{Pos, Rect, Shape};

verus! {

/// The engine's working range: mapped coordinates are clamped into
/// `[-COORD_MAX, COORD_MAX]` subunits.
pub const COORD_MAX: i64 = 0x4000_0000;

/// A coordinate clamped into the working range.
pub open spec fn clamp_coord(x: int) -> int {
    if x < -COORD_MAX {
        -COORD_MAX as int
    } else if x > COORD_MAX {
        COORD_MAX as int
    } else {
        x
    }
}

/// Clamps one coordinate into the working range.
pub fn clamp(x: i64) -> (r: i64)
    ensures
        r == clamp_coord(x as int),
{
    if x < -COORD_MAX {
        -COORD_MAX
    } else if x > COORD_MAX {
        COORD_MAX
    } else {
        x
    }
}

/// The floor of `a / b` for a positive divisor (the Euclidean quotient).
pub fn div_floor(a: i128, b: i128) -> (r: i128)
    requires
        0 < b,
        -0x1_0000_0000_0000_0000_0000_0000_0000 < a
            < 0x1_0000_0000_0000_0000_0000_0000_0000,
        b < 0x1_0000_0000_0000_0000_0000_0000_0000,
    ensures
        r == a as int / b as int,
{
    if a >= 0 {
        let q = (a as u128) / (b as u128);
        proof {
            lemma_div_pos_is_pos(a as int, b as int);
            lemma_div_is_ordered(a as int, 0x1_0000_0000_0000_0000_0000_0000_0000, b as int);
        }
        q as i128
    } else {
        let m = (-a) as u128;
        let bu = b as u128;
        let q = (m + bu - 1) / bu;
        proof {
            lemma_div_floor_neg(a as int, b as int);
            assert((m + bu - 1) as int / bu as int <= (m + bu - 1) as int) by {
                lemma_mul_ge_self((m + bu - 1) as int, b as int);
                lemma_div_by_mul((m + bu - 1) as int, b as int);
                lemma_div_is_ordered(
                    (m + bu - 1) as int,
                    ((m + bu - 1) as int) * (b as int),
                    b as int,
                );
            }
        }
        -(q as i128)
    }
}

/// `x * b / b == x` for positive `b`.
proof fn lemma_div_by_mul(x: int, b: int)
    requires
        0 < b,
        0 <= x,
    ensures
        (x * b) / b == x,
{
    assert((x * b) / b == x) by (nonlinear_arith)
        requires
            0 < b,
    ;
}

/// `x <= x * b` for positive `b` and nonnegative `x`.
proof fn lemma_mul_ge_self(x: int, b: int)
    requires
        0 < b,
        0 <= x,
    ensures
        x <= x * b,
{
    assert(x <= x * b) by (nonlinear_arith)
        requires
            0 < b,
            0 <= x,
    ;
}

/// For a negative dividend and positive divisor, the Euclidean quotient
/// is the negated rounded-up quotient of the magnitudes.
proof fn lemma_div_floor_neg(a: int, b: int)
    requires
        a < 0,
        0 < b,
    ensures
        a / b == -((-a + b - 1) / b),
{
    let m = -a;
    let q = (m + b - 1) / b;
    let r = (m + b - 1) % b;
    lemma_fundamental_div_mod(m + b - 1, b);
    assert(m + b - 1 == b * q + r);
    assert(0 <= r < b);
    // a == b * (-q) + (b - 1 - r), and 0 <= b - 1 - r < b, so -q is the
    // Euclidean quotient of a by b.
    assert(a == b * (-q) + (b - 1 - r)) by (nonlinear_arith)
        requires
            m + b - 1 == b * q + r,
            a == -m,
    ;
    lemma_fundamental_div_mod(a, b);
    lemma_div_mod_unique(a, b, -q, b - 1 - r);
}

/// The Euclidean quotient and remainder are the only pair with a
/// remainder in `[0, b)`.
proof fn lemma_div_mod_unique(a: int, b: int, q: int, r: int)
    requires
        0 < b,
        a == b * q + r,
        0 <= r < b,
    ensures
        q == a / b,
        r == a % b,
{
    lemma_fundamental_div_mod(a, b);
    assert(b * q + r == b * (a / b) + (a % b));
    assert(q == a / b && r == a % b) by (nonlinear_arith)
        requires
            0 < b,
            b * q + r == b * (a / b) + (a % b),
            0 <= r < b,
            0 <= a % b < b,
    ;
}

/// A rectangle-to-rectangle mapping: canvas space (`from`) onto screen
/// space (`to`), independent scale and offset per axis.
#[derive(Clone, Copy, Debug, PartialEq, Eq, Structural)]
pub struct Transform {
    pub from: Rect,
    pub to: Rect,
}

impl Transform {
    /// Both rectangles are strictly ordered (a degenerate or sentinel
    /// bounds rectangle must be replaced before a transform is built)
    /// and lie inside the working range.
    pub open spec fn wf(self) -> bool {
        &&& self.from.min.x < self.from.max.x
        &&& self.from.min.y < self.from.max.y
        &&& self.to.min.x < self.to.max.x
        &&& self.to.min.y < self.to.max.y
        &&& -COORD_MAX <= self.from.min.x
        &&& self.from.max.x <= COORD_MAX
        &&& -COORD_MAX <= self.from.min.y
        &&& self.from.max.y <= COORD_MAX
        &&& -COORD_MAX <= self.to.min.x
        &&& self.to.max.x <= COORD_MAX
        &&& -COORD_MAX <= self.to.min.y
        &&& self.to.max.y <= COORD_MAX
    }

    /// Checks well-formedness.
    pub fn is_wf(&self) -> (r: bool)
        ensures
            r == self.wf(),
    {
        self.from.min.x < self.from.max.x && self.from.min.y < self.from.max.y && self.to.min.x
            < self.to.max.x && self.to.min.y < self.to.max.y && -COORD_MAX <= self.from.min.x
            && self.from.max.x <= COORD_MAX && -COORD_MAX <= self.from.min.y && self.from.max.y
            <= COORD_MAX && -COORD_MAX <= self.to.min.x && self.to.max.x <= COORD_MAX && -COORD_MAX
            <= self.to.min.y && self.to.max.y <= COORD_MAX
    }

    /// The mapping that takes `from` onto `to`.
    pub fn from_to(from: Rect, to: Rect) -> (t: Self)
        ensures
            t == (Transform { from, to }),
    {
        Transform { from, to }
    }

    /// The inverse mapping: `to` back onto `from`.
    pub fn inverse(&self) -> (t: Self)
        ensures
            t == (Transform { from: self.to, to: self.from }),
            self.wf() ==> t.wf(),
    {
        Transform { from: self.to, to: self.from }
    }

    /// Where the x coordinate `x` lands in screen space: clamp into the
    /// working range, scale by the width ratio, offset; the result is
    /// clamped again.
    pub open spec fn spec_apply_x(self, x: int) -> int {
        let d = self.from.max.x - self.from.min.x;
        let n = self.to.max.x - self.to.min.x;
        clamp_coord(self.to.min.x + ((clamp_coord(x) - self.from.min.x) * n) / d)
    }

    /// Where the y coordinate `y` lands in screen space.
    pub open spec fn spec_apply_y(self, y: int) -> int {
        let d = self.from.max.y - self.from.min.y;
        let n = self.to.max.y - self.to.min.y;
        clamp_coord(self.to.min.y + ((clamp_coord(y) - self.from.min.y) * n) / d)
    }

    /// Where a point lands in screen space.
    pub open spec fn spec_apply(self, p: Pos) -> Pos {
        Pos { x: self.spec_apply_x(p.x as int) as i64, y: self.spec_apply_y(p.y as int) as i64 }
    }

    /// Maps one x coordinate forward.
    pub fn apply_x(&self, x: i64) -> (r: i64)
        requires
            self.wf(),
        ensures
            r == self.spec_apply_x(x as int),
            -COORD_MAX <= r <= COORD_MAX,
    {
        let d = (self.from.max.x - self.from.min.x) as i128;
        let n = (self.to.max.x - self.to.min.x) as i128;
        let c = clamp(x);
        proof {
            lemma_apply_bounds(
                c as int,
                self.from.min.x as int,
                self.from.max.x as int,
                self.to.min.x as int,
                self.to.max.x as int,
            );
        }
        let q = div_floor((c - self.from.min.x) as i128 * n, d);
        proof {
            lemma_div_magnitude(((c - self.from.min.x) as i128 * n) as int, d as int);
        }
        let v = self.to.min.x as i128 + q;
        clamp_i128(v)
    }

    /// Maps one y coordinate forward.
    pub fn apply_y(&self, y: i64) -> (r: i64)
        requires
            self.wf(),
        ensures
            r == self.spec_apply_y(y as int),
            -COORD_MAX <= r <= COORD_MAX,
    {
        let d = (self.from.max.y - self.from.min.y) as i128;
        let n = (self.to.max.y - self.to.min.y) as i128;
        let c = clamp(y);
        proof {
            lemma_apply_bounds(
                c as int,
                self.from.min.y as int,
                self.from.max.y as int,
                self.to.min.y as int,
                self.to.max.y as int,
            );
        }
        let q = div_floor((c - self.from.min.y) as i128 * n, d);
        proof {
            lemma_div_magnitude(((c - self.from.min.y) as i128 * n) as int, d as int);
        }
        let v = self.to.min.y as i128 + q;
        clamp_i128(v)
    }

    /// Maps a point forward into screen space.
    pub fn apply(&self, p: Pos) -> (r: Pos)
        requires
            self.wf(),
        ensures
            r == self.spec_apply(p),
            -COORD_MAX <= r.x <= COORD_MAX,
            -COORD_MAX <= r.y <= COORD_MAX,
    {
        Pos { x: self.apply_x(p.x), y: self.apply_y(p.y) }
    }

    /// The per-axis scale factors as exact fractions: for each axis the
    /// destination extent over the source extent.
    pub fn scale(&self) -> (r: ((i64, i64), (i64, i64)))
        requires
            self.wf(),
        ensures
            r.0.0 == self.to.max.x - self.to.min.x,
            r.0.1 == self.from.max.x - self.from.min.x,
            r.1.0 == self.to.max.y - self.to.min.y,
            r.1.1 == self.from.max.y - self.from.min.y,
            r.0.0 > 0 && r.0.1 > 0 && r.1.0 > 0 && r.1.1 > 0,
    {
        (
            (self.to.max.x - self.to.min.x, self.from.max.x - self.from.min.x),
            (self.to.max.y - self.to.min.y, self.from.max.y - self.from.min.y),
        )
    }
}

/// The scaled offset stays within the `i128` working bounds used by
/// [`div_floor`], for any clamped input.
proof fn lemma_apply_bounds(c: int, s0: int, s1: int, t0: int, t1: int)
    requires
        s0 < s1,
        t0 < t1,
        -COORD_MAX <= s0 && s1 <= COORD_MAX,
        -COORD_MAX <= t0 && t1 <= COORD_MAX,
        -COORD_MAX <= c <= COORD_MAX,
    ensures
        -0x1_0000_0000_0000_0000 <= (c - s0) * (t1 - t0) <= 0x1_0000_0000_0000_0000,
{
    assert(-(2 * COORD_MAX) <= c - s0 <= 2 * COORD_MAX);
    assert(0 < t1 - t0 <= 2 * COORD_MAX);
    assert(-0x1_0000_0000_0000_0000 <= (c - s0) * (t1 - t0) <= 0x1_0000_0000_0000_0000)
        by (nonlinear_arith)
        requires
            -(2 * COORD_MAX as int) <= c - s0 <= 2 * COORD_MAX as int,
            0 < t1 - t0 <= 2 * COORD_MAX as int,
            COORD_MAX == 0x4000_0000i64,
    ;
}

/// The Euclidean quotient by a positive divisor never grows in
/// magnitude.
proof fn lemma_div_magnitude(x: int, d: int)
    requires
        1 <= d,
    ensures
        x >= 0 ==> 0 <= x / d <= x,
        x < 0 ==> x <= x / d <= 0,
{
    lemma_fundamental_div_mod(x, d);
    let q = x / d;
    let r = x % d;
    if x >= 0 {
        lemma_div_pos_is_pos(x, d);
        assert(q <= x) by (nonlinear_arith)
            requires
                x == d * q + r,
                0 <= r < d,
                1 <= d,
                0 <= q,
                x >= 0,
        ;
    } else {
        assert(x <= q && q <= 0) by (nonlinear_arith)
            requires
                x == d * q + r,
                0 <= r < d,
                1 <= d,
                x < 0,
        ;
    }
}

/// Clamps an `i128` intermediate into the working range.
fn clamp_i128(x: i128) -> (r: i64)
    ensures
        r == clamp_coord(x as int),
{
    if x < (-COORD_MAX) as i128 {
        -COORD_MAX
    } else if x > COORD_MAX as i128 {
        COORD_MAX
    } else {
        x as i64
    }
}

/// The arithmetic core of the inverse law, over one axis given as plain
/// integers: map forward, map back, and bound the shortfall.
proof fn lemma_affine_round_trip(s0: int, s1: int, t0: int, t1: int, x: int)
    requires
        s0 < s1,
        t0 < t1,
        -COORD_MAX <= s0 && s1 <= COORD_MAX,
        -COORD_MAX <= t0 && t1 <= COORD_MAX,
        s0 <= x <= s1,
    ensures
        ({
            let d = s1 - s0;
            let n = t1 - t0;
            let q = clamp_coord(t0 + ((clamp_coord(x) - s0) * n) / d);
            let x2 = clamp_coord(s0 + ((clamp_coord(q) - t0) * d) / n);
            0 <= x - x2 && (x - x2) * n <= d + n
        }),
{
    let d = s1 - s0;
    let n = t1 - t0;
    let a = x - s0;
    assert(clamp_coord(x) == x);
    let q0 = (a * n) / d;
    let r1 = (a * n) % d;
    lemma_fundamental_div_mod(a * n, d);
    assert(0 <= r1 < d);
    assert(0 <= a * n && a * n <= d * n) by (nonlinear_arith)
        requires
            0 <= a <= d,
            0 < n,
    ;
    lemma_div_pos_is_pos(a * n, d);
    assert(q0 <= n) by {
        lemma_div_is_ordered(a * n, d * n, d);
        lemma_div_by_mul(n, d);
        assert(d * n == n * d) by (nonlinear_arith);
    }
    let q = clamp_coord(t0 + q0);
    assert(t0 <= t0 + q0 <= t1);
    assert(q == t0 + q0);
    assert(clamp_coord(q) == q);
    // Going back divides q0 * d, which is exactly a * n - r1.
    let b0 = (q0 * d) / n;
    assert(q0 * d == a * n - r1) by (nonlinear_arith)
        requires
            a * n == d * q0 + r1,
    ;
    // The shortfall is k, the rounded-up quotient of r1 by n.
    let k = (r1 + n - 1) / n;
    lemma_fundamental_div_mod(r1 + n - 1, n);
    assert(n * k <= r1 + n - 1);
    assert(n * k >= r1);
    assert(a * n - r1 == n * (a - k) + (n * k - r1)) by (nonlinear_arith);
    assert(0 <= n * k - r1 < n);
    lemma_div_mod_unique(a * n - r1, n, a - k, n * k - r1);
    assert(b0 == a - k);
    lemma_div_pos_is_pos(r1 + n - 1, n);
    assert(k * n <= r1 + n - 1) by (nonlinear_arith)
        requires
            n * k <= r1 + n - 1,
    ;
    assert(0 <= b0 <= d);
    assert(s0 <= s0 + b0 <= s1);
    assert(clamp_coord(s0 + b0) == s0 + b0);
}

/// The inverse law on the x axis: mapping a canvas coordinate onto the
/// screen and back never overshoots, and the shortfall `x - x2`, scaled
/// by the screen extent, is at most one screen extent plus one canvas
/// extent — the exact analog of "the inverse returns the point within
/// tolerance". With the screen extent at least the canvas extent the
/// shortfall is at most two subunits.
pub proof fn lemma_transform_inverse_x(t: Transform, x: i64)
    requires
        t.wf(),
        t.from.min.x <= x <= t.from.max.x,
    ensures
        ({
            let q = t.spec_apply_x(x as int);
            let x2 = (Transform { from: t.to, to: t.from }).spec_apply_x(q);
            let d = t.from.max.x - t.from.min.x;
            let n = t.to.max.x - t.to.min.x;
            0 <= x - x2 && (x - x2) * n <= d + n
        }),
{
    lemma_affine_round_trip(
        t.from.min.x as int,
        t.from.max.x as int,
        t.to.min.x as int,
        t.to.max.x as int,
        x as int,
    );
}

/// The inverse law on the y axis; see [`lemma_transform_inverse_x`].
pub proof fn lemma_transform_inverse_y(t: Transform, y: i64)
    requires
        t.wf(),
        t.from.min.y <= y <= t.from.max.y,
    ensures
        ({
            let q = t.spec_apply_y(y as int);
            let y2 = (Transform { from: t.to, to: t.from }).spec_apply_y(q);
            let d = t.from.max.y - t.from.min.y;
            let n = t.to.max.y - t.to.min.y;
            0 <= y - y2 && (y - y2) * n <= d + n
        }),
{
    lemma_affine_round_trip(
        t.from.min.y as int,
        t.from.max.y as int,
        t.to.min.y as int,
        t.to.max.y as int,
        y as int,
    );
}

// ---------------------------------------------------------------------------
// Mapping whole shapes, and the pan / zoom update rules for the viewer.
// ---------------------------------------------------------------------------

/// A length clamped into `[0, COORD_MAX]` and scaled by one axis of the
/// transform (destination extent over source extent), the result clamped
/// the same way.
pub open spec fn spec_scale_len(len: int, n: int, d: int) -> int {
    let l = if len < 0 {
        0
    } else if len > COORD_MAX {
        COORD_MAX as int
    } else {
        len
    };
    let q = (l * n) / d;
    if q > COORD_MAX {
        COORD_MAX as int
    } else {
        q
    }
}

/// Bounds for the scaled-length computation.
proof fn lemma_scale_len(l: int, n: int, d: int)
    requires
        0 <= l <= COORD_MAX,
        0 < n <= 2 * COORD_MAX,
        0 < d <= 2 * COORD_MAX,
    ensures
        0 <= l * n <= 0x1_0000_0000_0000_0000,
        0 <= (l * n) / d,
{
    assert(0 <= l * n <= 0x1_0000_0000_0000_0000) by (nonlinear_arith)
        requires
            0 <= l <= COORD_MAX as int,
            0 < n <= 2 * COORD_MAX as int,
            COORD_MAX == 0x4000_0000i64,
    ;
    lemma_div_pos_is_pos(l * n, d);
    lemma_div_magnitude(l * n, d);
}

impl Transform {
    /// A length scaled by the x axis.
    pub fn scale_len_x(&self, len: i64) -> (r: i64)
        requires
            self.wf(),
        ensures
            r == spec_scale_len(
                len as int,
                self.to.max.x - self.to.min.x,
                self.from.max.x - self.from.min.x,
            ),
            0 <= r <= COORD_MAX,
    {
        let l: i64 = if len < 0 {
            0
        } else if len > COORD_MAX {
            COORD_MAX
        } else {
            len
        };
        let n = (self.to.max.x - self.to.min.x) as i128;
        let d = (self.from.max.x - self.from.min.x) as i128;
        proof {
            lemma_scale_len(l as int, n as int, d as int);
        }
        let q = (l as i128) * n / d;
        if q > COORD_MAX as i128 {
            COORD_MAX
        } else {
            q as i64
        }
    }

    /// A length scaled by the y axis.
    pub fn scale_len_y(&self, len: i64) -> (r: i64)
        requires
            self.wf(),
        ensures
            r == spec_scale_len(
                len as int,
                self.to.max.y - self.to.min.y,
                self.from.max.y - self.from.min.y,
            ),
            0 <= r <= COORD_MAX,
    {
        let l: i64 = if len < 0 {
            0
        } else if len > COORD_MAX {
            COORD_MAX
        } else {
            len
        };
        let n = (self.to.max.y - self.to.min.y) as i128;
        let d = (self.from.max.y - self.from.min.y) as i128;
        proof {
            lemma_scale_len(l as int, n as int, d as int);
        }
        let q = (l as i128) * n / d;
        if q > COORD_MAX as i128 {
            COORD_MAX
        } else {
            q as i64
        }
    }
}

/// The integer square root: the unique `r` with
/// `r * r <= x < (r + 1) * (r + 1)`.
pub fn isqrt(x: u64) -> (r: u64)
    ensures
        r * r <= x,
        (r + 1) * (r + 1) > x,
{
    let mut lo: u64 = 0;
    let mut hi: u64 = 0xffff_ffff;
    proof {
        assert((hi + 1) * (hi + 1) > x) by (nonlinear_arith)
            requires
                hi == 0xffff_ffffu64,
                x <= 0xffff_ffff_ffff_ffffu64,
        ;
    }
    while lo < hi
        invariant
            lo <= hi <= 0xffff_ffff,
            lo * lo <= x,
            (hi + 1) * (hi + 1) > x,
        decreases hi - lo,
    {
        let mid = lo + (hi - lo + 1) / 2;
        proof {
            assert(mid * mid <= 0xffff_ffffu64 * 0xffff_ffffu64) by (nonlinear_arith)
                requires
                    mid <= 0xffff_ffffu64,
            ;
        }
        if mid * mid <= x {
            lo = mid;
        } else {
            hi = mid - 1;
        }
    }
    lo
}

/// A text size scaled by the combined magnitude of the two axis scales:
/// the integer square root of the product of the per-axis scaled sizes.
impl Transform {
    /// The size of a text item in screen space: the geometric mean of
    /// the size scaled by each axis, so an isotropic zoom scales text
    /// linearly and an axis-locked zoom scales it by the square root.
    pub fn scale_size(&self, size: i64) -> (r: i64)
        requires
            self.wf(),
        ensures
            ({
                let ax = spec_scale_len(
                    size as int,
                    self.to.max.x - self.to.min.x,
                    self.from.max.x - self.from.min.x,
                );
                let ay = spec_scale_len(
                    size as int,
                    self.to.max.y - self.to.min.y,
                    self.from.max.y - self.from.min.y,
                );
                r * r <= ax * ay && (r + 1) * (r + 1) > ax * ay
            }),
    {
        let ax = self.scale_len_x(size);
        let ay = self.scale_len_y(size);
        proof {
            assert(ax as u64 * ay as u64 <= 0xffff_ffff_ffff_ffffu64) by (nonlinear_arith)
                requires
                    0 <= ax <= 0x4000_0000i64,
                    0 <= ay <= 0x4000_0000i64,
            ;
        }
        let p = (ax as u64) * (ay as u64);
        let r = isqrt(p);
        proof {
            assert(r as u64 * r as u64 <= p);
            assert(r <= 0x1_0000_0000u64) by (nonlinear_arith)
                requires
                    r as u64 * r as u64 <= p,
                    p <= 0x4000_0000_0000_0000u64 * 4,
            ;
        }
        r as i64
    }
}

/// One axis of the zoom rule: the anchor plus the anchor-to-edge offset
/// divided by the zoom factor `num / den`, everything clamped into the
/// working range.
pub open spec fn spec_zoom_coord(edge: int, anchor: int, num: int, den: int) -> int {
    clamp_coord(clamp_coord(anchor) + ((clamp_coord(edge) - clamp_coord(anchor)) * den) / num)
}

fn zoom_coord(edge: i64, anchor: i64, num: i64, den: i64) -> (r: i64)
    requires
        0 < num <= COORD_MAX,
        0 < den <= COORD_MAX,
    ensures
        r == spec_zoom_coord(edge as int, anchor as int, num as int, den as int),
        -COORD_MAX <= r <= COORD_MAX,
{
    let e = clamp(edge);
    let a = clamp(anchor);
    proof {
        assert(-0x1_0000_0000_0000_0000 <= (e - a) as int * den as int
            <= 0x1_0000_0000_0000_0000) by (nonlinear_arith)
            requires
                -(2 * COORD_MAX as int) <= e - a <= 2 * COORD_MAX as int,
                0 < den <= COORD_MAX as int,
                COORD_MAX == 0x4000_0000i64,
        ;
    }
    let q = div_floor((e - a) as i128 * den as i128, num as i128);
    proof {
        lemma_div_magnitude(((e - a) as i128 * den as i128) as int, num as int);
    }
    clamp_i128(a as i128 + q)
}

/// The zoom rule: shrink or grow the canvas-space source rectangle
/// around the anchor point, independently per axis, by the factors
/// `x_num / x_den` and `y_num / y_den`. A factor above one zooms in.
pub fn zoom_rect(
    rect: Rect,
    anchor: Pos,
    x_num: i64,
    x_den: i64,
    y_num: i64,
    y_den: i64,
) -> (r: Rect)
    requires
        0 < x_num <= COORD_MAX,
        0 < x_den <= COORD_MAX,
        0 < y_num <= COORD_MAX,
        0 < y_den <= COORD_MAX,
    ensures
        r.min.x == spec_zoom_coord(rect.min.x as int, anchor.x as int, x_num as int, x_den as int),
        r.max.x == spec_zoom_coord(rect.max.x as int, anchor.x as int, x_num as int, x_den as int),
        r.min.y == spec_zoom_coord(rect.min.y as int, anchor.y as int, y_num as int, y_den as int),
        r.max.y == spec_zoom_coord(rect.max.y as int, anchor.y as int, y_num as int, y_den as int),
{
    Rect {
        min: Pos {
            x: zoom_coord(rect.min.x, anchor.x, x_num, x_den),
            y: zoom_coord(rect.min.y, anchor.y, y_num, y_den),
        },
        max: Pos {
            x: zoom_coord(rect.max.x, anchor.x, x_num, x_den),
            y: zoom_coord(rect.max.y, anchor.y, y_num, y_den),
        },
    }
}

/// The pan rule: translate the canvas-space source rectangle by the
/// drag delta mapped back through the inverse transform, every
/// coordinate clamped into the working range.
pub fn pan_rect(rect: Rect, t: &Transform, before: Pos, after: Pos) -> (r: Rect)
    requires
        t.wf(),
    ensures
        ({
            let inv = Transform { from: t.to, to: t.from };
            let dx = inv.spec_apply_x(after.x as int) - inv.spec_apply_x(before.x as int);
            let dy = inv.spec_apply_y(after.y as int) - inv.spec_apply_y(before.y as int);
            r.min.x == clamp_coord(rect.min.x - dx) && r.max.x == clamp_coord(rect.max.x - dx)
                && r.min.y == clamp_coord(rect.min.y - dy) && r.max.y == clamp_coord(
                rect.max.y - dy,
            )
        }),
{
    let inv = t.inverse();
    let dx = inv.apply_x(after.x) - inv.apply_x(before.x);
    let dy = inv.apply_y(after.y) - inv.apply_y(before.y);
    Rect {
        min: Pos {
            x: clamp_i128(rect.min.x as i128 - dx as i128),
            y: clamp_i128(rect.min.y as i128 - dy as i128),
        },
        max: Pos {
            x: clamp_i128(rect.max.x as i128 - dx as i128),
            y: clamp_i128(rect.max.y as i128 - dy as i128),
        },
    }
}

// ---------------------------------------------------------------------------
// Mapping whole shapes into screen space for a renderer.
// ---------------------------------------------------------------------------

/// A shape resolved into screen space: path vertices mapped pointwise, a
/// circle turned into an ellipse with per-axis radii, text anchored at
/// its mapped position with its size scaled by the combined magnitude of
/// the two axis scales.
#[derive(Clone, Debug, PartialEq)]
pub enum ScreenShape {
    Path { points: Vec<Pos>, fill: Option<crate::scene::Color>, stroke: crate::scene::Stroke },
    Ellipse {
        center: Pos,
        radius_x: i64,
        radius_y: i64,
        fill: Option<crate::scene::Color>,
        stroke: Option<crate::scene::Stroke>,
    },
    Text { text: String, size: i64, pos: Pos, color: crate::scene::Color },
}

/// Maps one scene shape through the transform: every path vertex, the
/// rectangle corners and the circle center map by the per-axis affine
/// rule; the circle's radius scales per axis into an ellipse; text size
/// scales by the integer square root of the product of its per-axis
/// scalings.
pub fn shape_transform(shape: &Shape, to_screen: &Transform) -> (r: ScreenShape)
    requires
        to_screen.wf(),
    ensures
        match (shape@, r) {
            (crate::scene::ShapeView::Path(p), ScreenShape::Path { points, fill, stroke }) => {
                &&& points@ == p.vp.map_values(|v: Pos| to_screen.spec_apply(v))
                &&& fill == p.fill
                &&& stroke == p.stroke
            },
            (
                crate::scene::ShapeView::Circle(c),
                ScreenShape::Ellipse { center, radius_x, radius_y, fill, stroke },
            ) => {
                &&& center == to_screen.spec_apply(c.center)
                &&& radius_x == spec_scale_len(
                    c.radius as int,
                    to_screen.to.max.x - to_screen.to.min.x,
                    to_screen.from.max.x - to_screen.from.min.x,
                )
                &&& radius_y == spec_scale_len(
                    c.radius as int,
                    to_screen.to.max.y - to_screen.to.min.y,
                    to_screen.from.max.y - to_screen.from.min.y,
                )
                &&& fill == c.fill
                &&& stroke == c.stroke
            },
            (crate::scene::ShapeView::Text(t), ScreenShape::Text { text, size, pos, color }) => {
                let ax = spec_scale_len(
                    t.size as int,
                    to_screen.to.max.x - to_screen.to.min.x,
                    to_screen.from.max.x - to_screen.from.min.x,
                );
                let ay = spec_scale_len(
                    t.size as int,
                    to_screen.to.max.y - to_screen.to.min.y,
                    to_screen.from.max.y - to_screen.from.min.y,
                );
                &&& text@ == t.text
                &&& size * size <= ax * ay
                &&& (size + 1) * (size + 1) > ax * ay
                &&& pos == to_screen.spec_apply(t.pos)
                &&& color == t.color
            },
            _ => false,
        },
{
    match shape {
        Shape::Path(p) => {
            let mut points: Vec<Pos> = Vec::new();
            let m = p.vp.len();
            for i in 0..m
                invariant
                    to_screen.wf(),
                    m == p.vp.len(),
                    points@ =~= p.vp@.subrange(0, i as int).map_values(
                        |v: Pos| to_screen.spec_apply(v),
                    ),
            {
                let ghost prev = points@;
                let q = to_screen.apply(p.vp[i]);
                points.push(q);
                proof {
                    assert(points@ =~= p.vp@.subrange(0, i + 1).map_values(
                        |v: Pos| to_screen.spec_apply(v),
                    ));
                }
            }
            proof {
                assert(p.vp@.subrange(0, m as int) =~= p.vp@);
            }
            ScreenShape::Path { points, fill: p.fill, stroke: p.stroke }
        }
        Shape::Circle(c) => ScreenShape::Ellipse {
            center: to_screen.apply(c.center),
            radius_x: to_screen.scale_len_x(c.radius),
            radius_y: to_screen.scale_len_y(c.radius),
            fill: c.fill,
            stroke: c.stroke,
        },
        Shape::Text(t) => ScreenShape::Text {
            text: t.text.clone(),
            size: to_screen.scale_size(t.size),
            pos: to_screen.apply(t.pos),
            color: t.color,
        },
    }
}

} // verus!
