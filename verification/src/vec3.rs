//! Three-component vectors on the fixed-point grid, reused for positions
//! (`Point3`) and RGB colours (`Colour`).
//!
//! The mathematical view of a vector is [`V3`], three unbounded integers;
//! every executable operation states its result exactly over that view.

use vstd::prelude::*;

use crate::fixed::{fdiv, fdiv_s, fmul, fmul_s, fsqrt, fsqrt_s, iabs, is_sqrt, sabs, smin, tdiv,
    ADD_MAX, OP_MAX, SCALE};

verus! {

/// Largest coordinate magnitude accepted by `length` and `normalized`:
/// the squared length then stays within what `fsqrt` accepts.
pub const LEN_MAX: i128 = 1_000_000_000_000_000;

/// Mathematical view of a vector: the three fixed-point coordinates as
/// unbounded integers.
pub ghost struct V3 {
    pub x: int,
    pub y: int,
    pub z: int,
}

impl V3 {
    /// Every coordinate has magnitude at most `b`.
    pub open spec fn in_bounds(self, b: int) -> bool {
        sabs(self.x) <= b && sabs(self.y) <= b && sabs(self.z) <= b
    }

    pub open spec fn add_s(self, o: V3) -> V3 {
        V3 { x: self.x + o.x, y: self.y + o.y, z: self.z + o.z }
    }

    pub open spec fn sub_s(self, o: V3) -> V3 {
        V3 { x: self.x - o.x, y: self.y - o.y, z: self.z - o.z }
    }

    pub open spec fn neg_s(self) -> V3 {
        V3 { x: -self.x, y: -self.y, z: -self.z }
    }

    /// Scale by the fixed-point factor `k`.
    pub open spec fn smul_s(self, k: int) -> V3 {
        V3 { x: fmul_s(k, self.x), y: fmul_s(k, self.y), z: fmul_s(k, self.z) }
    }

    /// Divide by the fixed-point factor `k`.
    pub open spec fn sdiv_s(self, k: int) -> V3 {
        V3 { x: fdiv_s(self.x, k), y: fdiv_s(self.y, k), z: fdiv_s(self.z, k) }
    }

    /// Fixed-point inner product.
    pub open spec fn dot_s(self, o: V3) -> int {
        tdiv(self.x * o.x + self.y * o.y + self.z * o.z, SCALE as int)
    }

    /// Squared length on the fixed-point grid.
    pub open spec fn len_sq_s(self) -> int {
        self.dot_s(self)
    }

    /// Length: the rounded-down square root of the squared length.
    pub open spec fn len_s(self) -> int {
        fsqrt_s(self.len_sq_s())
    }

    /// Each coordinate divided by the length.
    pub open spec fn normalized_s(self) -> V3 {
        self.sdiv_s(self.len_s())
    }

    pub open spec fn is_zero(self) -> bool {
        self.x == 0 && self.y == 0 && self.z == 0
    }

    /// Componentwise (Hadamard) product, used to attenuate colours.
    pub open spec fn cmul_s(self, o: V3) -> V3 {
        V3 { x: fmul_s(self.x, o.x), y: fmul_s(self.y, o.y), z: fmul_s(self.z, o.z) }
    }
}

/// Mirror reflection of `v` about the surface normal `n`:
/// `v - 2 (v . n) n` on the fixed-point grid.
pub open spec fn reflect_s(v: V3, n: V3) -> V3 {
    v.sub_s(n.smul_s(2 * v.dot_s(n)))
}

/// Vector refraction of the unit direction `uv` at a surface with normal
/// `n` and refraction ratio `ratio`: the perpendicular part is
/// `ratio (uv + cos n)` with `cos = min(-uv . n, 1)`, and the parallel
/// part restores unit length via a square root.
pub open spec fn refract_s(uv: V3, n: V3, ratio: int) -> V3 {
    let cos = smin(uv.neg_s().dot_s(n), SCALE as int);
    let perp = uv.add_s(n.smul_s(cos)).smul_s(ratio);
    let par = n.smul_s(-fsqrt_s(sabs((SCALE as int) - perp.len_sq_s())));
    perp.add_s(par)
}

/// A point or direction in space, or an RGB colour; coordinates count
/// millionths of a unit.
#[derive(Clone, Copy, Debug, PartialEq, Eq, Structural)]
pub struct Vec3 {
    pub x: i128,
    pub y: i128,
    pub z: i128,
}

pub type Point3 = Vec3;

pub type Colour = Vec3;

impl View for Vec3 {
    type V = V3;

    open spec fn view(&self) -> V3 {
        V3 { x: self.x as int, y: self.y as int, z: self.z as int }
    }
}

/// The sum of the squared coordinates is bounded by the coordinate bound.
pub proof fn lemma_sq_sum_bound(v: V3, b: int)
    requires
        0 <= b,
        v.in_bounds(b),
    ensures
        0 <= v.x * v.x + v.y * v.y + v.z * v.z <= 3 * b * b,
{
    assert(0 <= v.x * v.x + v.y * v.y + v.z * v.z <= 3 * b * b) by (nonlinear_arith)
        requires
            -b <= v.x <= b,
            -b <= v.y <= b,
            -b <= v.z <= b,
    ;
}

/// The inner product of vectors bounded by `b` is bounded by `3 b^2 / SCALE`.
pub proof fn lemma_dot_bound(u: V3, v: V3, b: int)
    requires
        0 <= b,
        u.in_bounds(b),
        v.in_bounds(b),
    ensures
        -(3 * b * b) <= u.x * v.x + u.y * v.y + u.z * v.z <= 3 * b * b,
        sabs(u.dot_s(v)) <= 3 * b * b / (SCALE as int),
{
    assert(-(3 * b * b) <= u.x * v.x + u.y * v.y + u.z * v.z <= 3 * b * b) by (nonlinear_arith)
        requires
            -b <= u.x <= b,
            -b <= u.y <= b,
            -b <= u.z <= b,
            -b <= v.x <= b,
            -b <= v.y <= b,
            -b <= v.z <= b,
    ;
    let s = u.x * v.x + u.y * v.y + u.z * v.z;
    crate::fixed::lemma_tdiv_abs(s, SCALE as int);
    assert(sabs(s) / (SCALE as int) <= 3 * b * b / (SCALE as int)) by {
        vstd::arithmetic::div_mod::lemma_div_is_ordered(sabs(s), 3 * b * b, SCALE as int);
    }
}

/// Negating one side of an inner product negates the product exactly:
/// rounding toward zero is symmetric about zero.
pub proof fn lemma_dot_neg(u: V3, v: V3)
    ensures
        u.dot_s(v.neg_s()) == -u.dot_s(v),
{
    assert(u.x * -v.x + u.y * -v.y + u.z * -v.z == -(u.x * v.x + u.y * v.y + u.z * v.z))
        by (nonlinear_arith);
}

/// Scaling a bounded vector by a bounded factor keeps it bounded.
pub proof fn lemma_smul_bound(v: V3, k: int, vb: int, kb: int)
    requires
        v.in_bounds(vb),
        -kb <= k <= kb,
    ensures
        v.smul_s(k).in_bounds(kb * vb / (crate::fixed::SCALE as int)),
{
    crate::fixed::lemma_fmul_s_bound(k, v.x, kb, vb);
    crate::fixed::lemma_fmul_s_bound(k, v.y, kb, vb);
    crate::fixed::lemma_fmul_s_bound(k, v.z, kb, vb);
}

/// A vector with squared length at least one fixed-point step has a
/// length between `1000` and `2 * LEN_MAX`, and dividing it by that
/// length leaves every coordinate within three units.
pub proof fn lemma_normalized_bounds(v: V3)
    requires
        v.in_bounds(LEN_MAX as int),
        v.len_sq_s() >= 1,
    ensures
        1000 <= v.len_s() <= 2 * LEN_MAX,
        v.normalized_s().in_bounds(3 * (SCALE as int)),
{
    let sc = SCALE as int;
    let s = v.x * v.x + v.y * v.y + v.z * v.z;
    let ls = v.len_sq_s();
    let l = v.len_s();
    lemma_sq_sum_bound(v, LEN_MAX as int);
    crate::fixed::lemma_tdiv_abs(s, sc);
    assert(ls == s / sc);
    crate::fixed::lemma_sqrt_exists(ls * sc);
    assert(is_sqrt(ls * sc, l));
    // Lower bound on the length: the squared length is at least SCALE.
    assert(ls * sc >= sc) by (nonlinear_arith)
        requires
            ls >= 1,
            sc == 1_000_000,
    ;
    assert(l >= 1000) by (nonlinear_arith)
        requires
            is_sqrt(ls * sc, l),
            ls * sc >= 1_000_000,
    ;
    // Upper bound on the length.
    assert(ls <= 3 * (LEN_MAX as int) * (LEN_MAX as int) / sc) by {
        lemma_dot_bound(v, v, LEN_MAX as int);
    }
    assert(l <= 2 * LEN_MAX) by (nonlinear_arith)
        requires
            is_sqrt(ls * sc, l),
            0 <= ls <= 3_000_000_000_000_000_000_000_000int,
            sc == 1_000_000,
    ;
    // Raw coordinates are bounded by the length plus one grid-root step.
    vstd::arithmetic::div_mod::lemma_fundamental_div_mod(s, sc);
    vstd::arithmetic::div_mod::lemma_mod_division_less_than_divisor(s, sc);
    assert(s <= ls * sc + sc - 1);
    assert(s < (l + 1) * (l + 1) + sc);
    assert forall|c: int| c == v.x || c == v.y || c == v.z implies sabs(
        fdiv_s(c, l),
    ) <= 3 * sc by {
        assert(c * c <= s) by (nonlinear_arith)
            requires
                s == v.x * v.x + v.y * v.y + v.z * v.z,
                c == v.x || c == v.y || c == v.z,
        ;
        assert(sabs(c) <= l + 1001) by (nonlinear_arith)
            requires
                c * c <= s,
                s < (l + 1) * (l + 1) + 1_000_000,
                l >= 1000,
        ;
        assert(fdiv_s(c, l) == crate::fixed::tdiv(c * sc, l));
        crate::fixed::lemma_tdiv_abs(c * sc, l);
        assert(sabs(c * sc) == sabs(c) * sc) by (nonlinear_arith)
            requires
                sc > 0,
        ;
        assert(sabs(c) * sc <= (l + 1001) * sc) by (nonlinear_arith)
            requires
                sabs(c) <= l + 1001,
                sc > 0,
        ;
        assert((l + 1001) * sc <= 3 * sc * l) by (nonlinear_arith)
            requires
                l >= 1000,
                sc == 1_000_000,
        ;
        vstd::arithmetic::div_mod::lemma_div_is_ordered(sabs(c) * sc, 3 * sc * l, l);
        assert((l * (3 * sc)) / l == 3 * sc) by {
            vstd::arithmetic::div_mod::lemma_div_multiples_vanish(3 * sc, l);
        }
        assert(3 * sc * l == l * (3 * sc)) by (nonlinear_arith);
    }
}

/// Every coordinate of `v` has magnitude at most `b`.
pub fn bounded(v: &Vec3, b: i128) -> (r: bool)
    requires
        0 <= b,
    ensures
        r == v@.in_bounds(b as int),
{
    -b <= v.x && v.x <= b && -b <= v.y && v.y <= b && -b <= v.z && v.z <= b
}

impl Vec3 {
    pub fn new(x: i128, y: i128, z: i128) -> (v: Vec3)
        ensures
            v@ == (V3 { x: x as int, y: y as int, z: z as int }),
    {
        Vec3 { x, y, z }
    }

    /// Componentwise sum.
    pub fn add(&self, o: &Vec3) -> (r: Vec3)
        requires
            self@.in_bounds(ADD_MAX as int),
            o@.in_bounds(ADD_MAX as int),
        ensures
            r@ == self@.add_s(o@),
    {
        Vec3 { x: self.x + o.x, y: self.y + o.y, z: self.z + o.z }
    }

    /// Componentwise difference.
    pub fn sub(&self, o: &Vec3) -> (r: Vec3)
        requires
            self@.in_bounds(ADD_MAX as int),
            o@.in_bounds(ADD_MAX as int),
        ensures
            r@ == self@.sub_s(o@),
    {
        Vec3 { x: self.x - o.x, y: self.y - o.y, z: self.z - o.z }
    }

    /// Componentwise negation.
    pub fn neg(&self) -> (r: Vec3)
        requires
            self@.in_bounds(ADD_MAX as int),
        ensures
            r@ == self@.neg_s(),
    {
        Vec3 { x: -self.x, y: -self.y, z: -self.z }
    }

    /// Scale by the fixed-point factor `k`.
    pub fn smul(&self, k: i128) -> (r: Vec3)
        requires
            self@.in_bounds(OP_MAX as int),
            -OP_MAX <= k <= OP_MAX,
        ensures
            r@ == self@.smul_s(k as int),
    {
        Vec3 { x: fmul(k, self.x), y: fmul(k, self.y), z: fmul(k, self.z) }
    }

    /// Divide by the fixed-point factor `k`.
    pub fn sdiv(&self, k: i128) -> (r: Vec3)
        requires
            self@.in_bounds(OP_MAX as int),
            -OP_MAX <= k <= OP_MAX,
            k != 0,
        ensures
            r@ == self@.sdiv_s(k as int),
    {
        Vec3 { x: fdiv(self.x, k), y: fdiv(self.y, k), z: fdiv(self.z, k) }
    }

    /// Componentwise product, used to attenuate colours.
    pub fn cmul(&self, o: &Vec3) -> (r: Vec3)
        requires
            self@.in_bounds(OP_MAX as int),
            o@.in_bounds(OP_MAX as int),
        ensures
            r@ == self@.cmul_s(o@),
    {
        Vec3 { x: fmul(self.x, o.x), y: fmul(self.y, o.y), z: fmul(self.z, o.z) }
    }

    /// Fixed-point inner product.
    pub fn dot(u: &Vec3, v: &Vec3) -> (r: i128)
        requires
            u@.in_bounds(OP_MAX as int),
            v@.in_bounds(OP_MAX as int),
        ensures
            r == u@.dot_s(v@),
    {
        proof {
            lemma_dot_bound(u@, v@, OP_MAX as int);
            let m = OP_MAX as int;
            assert(-(m * m) <= u@.x * v@.x <= m * m && -(m * m) <= u@.y * v@.y <= m * m && -(m
                * m) <= u@.z * v@.z <= m * m)
                by (nonlinear_arith)
                requires
                    -m <= u@.x <= m,
                    -m <= u@.y <= m,
                    -m <= u@.z <= m,
                    -m <= v@.x <= m,
                    -m <= v@.y <= m,
                    -m <= v@.z <= m,
            ;
            crate::fixed::lemma_tdiv_abs(
                u@.x * v@.x + u@.y * v@.y + u@.z * v@.z,
                SCALE as int,
            );
        }
        (u.x * v.x + u.y * v.y + u.z * v.z) / SCALE
    }

    /// Squared length.
    pub fn length_squared(&self) -> (r: i128)
        requires
            self@.in_bounds(OP_MAX as int),
        ensures
            r == self@.len_sq_s(),
            r >= 0,
    {
        proof {
            lemma_sq_sum_bound(self@, OP_MAX as int);
            crate::fixed::lemma_tdiv_abs(
                self@.x * self@.x + self@.y * self@.y + self@.z * self@.z,
                SCALE as int,
            );
        }
        Vec3::dot(self, self)
    }

    /// Length, rounded down to the fixed-point grid.  Near the grid's
    /// resolution floor the rounding dominates: a vector whose squared
    /// length is below one grid step (all coordinates within about a
    /// thousandth of a unit) has length zero, so a zero length does not
    /// mean the vector is the origin.
    pub fn length(&self) -> (r: i128)
        requires
            self@.in_bounds(LEN_MAX as int),
        ensures
            r == self@.len_s(),
            0 <= r,
            is_sqrt(self@.len_sq_s() * (SCALE as int), r as int),
    {
        proof {
            lemma_sq_sum_bound(self@, LEN_MAX as int);
            lemma_dot_bound(self@, self@, LEN_MAX as int);
        }
        let ls = self.length_squared();
        fsqrt(ls)
    }

    /// The vector scaled to unit length, up to grid rounding.  The
    /// result's length is close to one only when the input is well above
    /// the grid's resolution floor; within about a thousandth of a unit
    /// of that floor the rounded length is too coarse and the result can
    /// be off by a large relative factor (its coordinates stay within
    /// three units, which is what the contract promises).
    pub fn normalized(&self) -> (r: Vec3)
        requires
            self@.in_bounds(LEN_MAX as int),
            self@.len_sq_s() >= 1,
        ensures
            r@ == self@.normalized_s(),
            r@.in_bounds(3 * (SCALE as int)),
    {
        proof {
            lemma_normalized_bounds(self@);
        }
        let l = self.length();
        self.sdiv(l)
    }

    /// All coordinates are zero: the fixed-point reading of "shorter than
    /// any representable direction".
    pub fn near_zero(&self) -> (r: bool)
        ensures
            r == self@.is_zero(),
    {
        self.x == 0 && self.y == 0 && self.z == 0
    }

    /// Mirror reflection of `v` about the normal `n`.
    pub fn reflect(v: &Vec3, n: &Vec3) -> (r: Vec3)
        requires
            v@.in_bounds(1_000_000_000 as int),
            n@.in_bounds(1_000_000_000 as int),
        ensures
            r@ == reflect_s(v@, n@),
    {
        let d = Vec3::dot(v, n);
        proof {
            lemma_dot_bound(v@, n@, 1_000_000_000 as int);
        }
        let k = 2 * d;
        proof {
            lemma_smul_bound(n@, k as int, 1_000_000_000 as int, 6_000_000_000_000 as int);
        }
        let nn = n.smul(k);
        v.sub(&nn)
    }

    /// Vector refraction of the unit direction `uv` about the normal `n`
    /// with refraction ratio `ratio`.
    pub fn refract(uv: &Vec3, n: &Vec3, ratio: i128) -> (r: Vec3)
        requires
            uv@.in_bounds(4 * (SCALE as int)),
            n@.in_bounds(4 * (SCALE as int)),
            0 <= ratio <= 1_000_000_000_000,
        ensures
            r@ == refract_s(uv@, n@, ratio as int),
    {
        let mu = uv.neg();
        let d = Vec3::dot(&mu, n);
        proof {
            lemma_dot_bound(mu@, n@, 4_000_000 as int);
            assert(3int * 4_000_000 * 4_000_000 / (SCALE as int) == 48_000_000);
        }
        let cos = if d <= SCALE {
            d
        } else {
            SCALE
        };
        proof {
            lemma_smul_bound(n@, cos as int, 4_000_000 as int, 48_000_000 as int);
            assert(48_000_000int * 4_000_000 / (SCALE as int) == 192_000_000);
        }
        let inner = uv.add(&n.smul(cos));
        proof {
            lemma_smul_bound(
                inner@,
                ratio as int,
                200_000_000 as int,
                1_000_000_000_000 as int,
            );
            assert(1_000_000_000_000int * 200_000_000 / (SCALE as int) == 200_000_000_000_000int);
        }
        let perp = inner.smul(ratio);
        let pls = perp.length_squared();
        proof {
            lemma_dot_bound(perp@, perp@, 200_000_000_000_000 as int);
            assert(3int * 200_000_000_000_000 * 200_000_000_000_000 / (SCALE as int)
                == 120_000_000_000_000_000_000_000int);
        }
        let m = iabs(SCALE - pls);
        let root = fsqrt(m);
        proof {
            let sc = SCALE as int;
            assert(root <= 400_000_000_000_000int) by (nonlinear_arith)
                requires
                    is_sqrt(m * sc, root as int),
                    sc == 1_000_000,
                    0 <= m <= 121_000_000_000_000_000_000_000int,
            ;
            lemma_smul_bound(n@, -root as int, 4_000_000 as int, 400_000_000_000_000 as int);
            assert(400_000_000_000_000int * 4_000_000 / (SCALE as int)
                == 1_600_000_000_000_000int);
        }
        let par = n.smul(-root);
        perp.add(&par)
    }
}

} // verus!
