use vstd::arithmetic::div_mod::{lemma_fundamental_div_mod, lemma_fundamental_div_mod_converse};
use vstd::prelude::*;

verus! {

/// Length of a direction vector in fixed point: a unit vector has this length.
pub const DIR_SCALE: u64 = 1000;

/// A point or a displacement in world space, in pico-units.
#[derive(Clone, Copy, Debug, PartialEq, Eq, Structural)]
pub struct Vector3 {
    pub x: i64,
    pub y: i64,
    pub z: i64,
}

impl View for Vector3 {
    type V = (int, int, int);

    open spec fn view(&self) -> (int, int, int) {
        (self.x as int, self.y as int, self.z as int)
    }
}

pub open spec fn add3(a: (int, int, int), b: (int, int, int)) -> (int, int, int) {
    (a.0 + b.0, a.1 + b.1, a.2 + b.2)
}

pub open spec fn sub3(a: (int, int, int), b: (int, int, int)) -> (int, int, int) {
    (a.0 - b.0, a.1 - b.1, a.2 - b.2)
}

pub open spec fn scale3(a: (int, int, int), k: int) -> (int, int, int) {
    (a.0 * k, a.1 * k, a.2 * k)
}

pub open spec fn norm_sq(a: (int, int, int)) -> int {
    a.0 * a.0 + a.1 * a.1 + a.2 * a.2
}

/// Squared Euclidean distance between two points.
pub open spec fn dist_sq(a: (int, int, int), b: (int, int, int)) -> int {
    norm_sq(sub3(a, b))
}

pub open spec fn is_sqrt_floor(r: int, n: int) -> bool {
    0 <= r && r * r <= n && n < (r + 1) * (r + 1)
}

/// The integer square root, rounded down.
pub open spec fn sqrt_floor(n: int) -> int {
    choose|r: int| is_sqrt_floor(r, n)
}

/// One coordinate of the unit vector along a vector of squared length `n`:
/// the sign of `c` times the square root of `c² · DIR_SCALE² / n`, with the
/// quotient and the root both rounded down.
pub open spec fn unit_coord(c: int, n: int) -> int {
    if n <= 0 {
        0
    } else {
        let m = sqrt_floor((c * c * (DIR_SCALE as int * DIR_SCALE as int)) / n);
        if c >= 0 {
            m
        } else {
            -m
        }
    }
}

/// The fixed-point unit vector along `v`; the zero vector stays zero.
/// It depends only on where `v` points, not on how long it is.
pub open spec fn unit(v: (int, int, int)) -> (int, int, int) {
    let n = norm_sq(v);
    (unit_coord(v.0, n), unit_coord(v.1, n), unit_coord(v.2, n))
}

proof fn lemma_sqrt_floor_unique(r1: int, r2: int, n: int)
    requires
        is_sqrt_floor(r1, n),
        is_sqrt_floor(r2, n),
    ensures
        r1 == r2,
{
    if r1 < r2 {
        assert((r1 + 1) * (r1 + 1) <= r2 * r2) by (nonlinear_arith)
            requires
                0 <= r1,
                r1 + 1 <= r2,
        ;
    } else if r2 < r1 {
        assert((r2 + 1) * (r2 + 1) <= r1 * r1) by (nonlinear_arith)
            requires
                0 <= r2,
                r2 + 1 <= r1,
        ;
    }
}

proof fn lemma_sqrt_floor_is(r: int, n: int)
    requires
        is_sqrt_floor(r, n),
    ensures
        sqrt_floor(n) == r,
{
    assert(exists|q: int| is_sqrt_floor(q, n));
    lemma_sqrt_floor_unique(sqrt_floor(n), r, n);
}

/// Integer square root of `n`, rounded down.
pub fn isqrt(n: u128) -> (r: u64)
    ensures
        is_sqrt_floor(r as int, n as int),
        r as int == sqrt_floor(n as int),
{
    let mut lo: u128 = 0;
    let mut hi: u128 = 0x1_0000_0000_0000_0000;
    assert(n < hi * hi);
    while hi - lo > 1
        invariant
            lo < hi <= 0x1_0000_0000_0000_0000,
            lo * lo <= n,
            n < hi * hi,
        decreases hi - lo,
    {
        let mid: u128 = lo + (hi - lo) / 2;
        assert(mid * mid <= 0xffff_ffff_ffff_ffff * 0xffff_ffff_ffff_ffffu128) by (nonlinear_arith)
            requires
                mid < 0x1_0000_0000_0000_0000,
        ;
        if mid * mid <= n {
            lo = mid;
        } else {
            hi = mid;
        }
    }
    proof {
        lemma_sqrt_floor_is(lo as int, n as int);
    }
    lo as u64
}

pub open spec fn pow10(i: nat) -> int
    decreases i,
{
    if i == 0 {
        1
    } else {
        10 * pow10((i - 1) as nat)
    }
}

/// `g · DIR_SCALE² / n`, rounded down, by long division in base ten.
fn scaled_quotient(g: u128, n: u128) -> (q: u128)
    requires
        0 < n < 0x0400_0000_0000_0000_0000_0000_0000_0000,
        g <= n,
    ensures
        q as int == (g as int * (DIR_SCALE as int * DIR_SCALE as int)) / n as int,
        q <= DIR_SCALE * DIR_SCALE,
{
    let mut q: u128 = g / n;
    let mut r: u128 = g % n;
    proof {
        lemma_fundamental_div_mod(g as int, n as int);
        assert(q * n <= n * 1) by (nonlinear_arith)
            requires
                q * n + r == g,
                r >= 0,
                g <= n,
        ;
        assert(q <= 1) by (nonlinear_arith)
            requires
                q * n <= n * 1,
                n > 0,
        ;
    }
    let ghost mut m: int = 1;
    let mut i: u32 = 0;
    while i < 6
        invariant
            0 <= i <= 6,
            m == pow10(i as nat),
            0 < n < 0x0400_0000_0000_0000_0000_0000_0000_0000,
            g <= n,
            q * n + r == g * m,
            r < n,
            0 <= q <= m,
            m <= 100_000 || i == 6,
        decreases 6 - i,
    {
        proof {
            reveal_with_fuel(pow10, 7);
        }
        let t: u128 = r * 10;
        let d: u128 = t / n;
        proof {
            lemma_fundamental_div_mod(t as int, n as int);
            assert(d < 10) by (nonlinear_arith)
                requires
                    t == n * d + t % n,
                    t % n >= 0,
                    t < 10 * n,
                    n > 0,
            ;
        }
        let nq: u128 = q * 10 + d;
        let nr: u128 = t % n;
        proof {
            assert(nq * n + nr == g * (m * 10)) by (nonlinear_arith)
                requires
                    q * n + r == g * m,
                    t == r * 10,
                    n * d + nr == t,
                    nq == q * 10 + d,
            ;
            assert(nq <= m * 10) by (nonlinear_arith)
                requires
                    nq * n + nr == g * (m * 10),
                    nr >= 0,
                    g <= n,
                    n > 0,
                    m >= 0,
            ;
        }
        q = nq;
        r = nr;
        proof {
            m = m * 10;
        }
        i = i + 1;
    }
    proof {
        reveal_with_fuel(pow10, 7);
        lemma_fundamental_div_mod_converse(g as int * 1_000_000, n as int, q as int, r as int);
    }
    q
}

proof fn lemma_sqrt_of_bounded(m: int, q: int)
    requires
        is_sqrt_floor(m, q),
        q <= 1_000_000,
    ensures
        m <= 1000,
{
    if m > 1000 {
        assert(m * m > 1_000_000) by (nonlinear_arith)
            requires
                m > 1000,
        ;
    }
}

/// One coordinate of the unit vector along a vector of squared length `n`.
fn unit_coord_exec(c: i64, n: u128) -> (r: i64)
    requires
        0 < n < 0x0400_0000_0000_0000_0000_0000_0000_0000,
        c as int * c as int <= n,
    ensures
        r as int == unit_coord(c as int, n as int),
        -(DIR_SCALE as int) <= r <= DIR_SCALE as int,
        is_sqrt_floor(if r >= 0 { r as int } else { -r }, (c as int * c as int * 1_000_000) / n as int),
{
    let a: i128 = c as i128;
    assert(a * a >= 0) by (nonlinear_arith);
    let g: u128 = (a * a) as u128;
    let q = scaled_quotient(g, n);
    let m: u64 = isqrt(q);
    proof {
        lemma_sqrt_of_bounded(m as int, q as int);
    }
    if c >= 0 {
        m as i64
    } else {
        -(m as i64)
    }
}

proof fn lemma_unit_length(c: (int, int, int), n: int, q: (int, int, int), r: (int, int, int))
    requires
        n == norm_sq(c),
        n > 0,
        q.0 == (c.0 * c.0 * 1_000_000) / n,
        q.1 == (c.1 * c.1 * 1_000_000) / n,
        q.2 == (c.2 * c.2 * 1_000_000) / n,
        is_sqrt_floor(r.0, q.0),
        is_sqrt_floor(r.1, q.1),
        is_sqrt_floor(r.2, q.2),
        r.0 <= 1000,
        r.1 <= 1000,
        r.2 <= 1000,
    ensures
        1_000_000 - 6 * 1000 - 2 <= norm_sq(r) <= 1_000_000,
{
    let x0 = c.0 * c.0 * 1_000_000;
    let x1 = c.1 * c.1 * 1_000_000;
    let x2 = c.2 * c.2 * 1_000_000;
    lemma_fundamental_div_mod(x0, n);
    lemma_fundamental_div_mod(x1, n);
    lemma_fundamental_div_mod(x2, n);
    assert(x0 + x1 + x2 == n * 1_000_000) by (nonlinear_arith)
        requires
            n == c.0 * c.0 + c.1 * c.1 + c.2 * c.2,
            x0 == c.0 * c.0 * 1_000_000,
            x1 == c.1 * c.1 * 1_000_000,
            x2 == c.2 * c.2 * 1_000_000,
    ;
    let s = q.0 + q.1 + q.2;
    assert(n * s + x0 % n + x1 % n + x2 % n == n * 1_000_000) by (nonlinear_arith)
        requires
            x0 == n * q.0 + x0 % n,
            x1 == n * q.1 + x1 % n,
            x2 == n * q.2 + x2 % n,
            x0 + x1 + x2 == n * 1_000_000,
            s == q.0 + q.1 + q.2,
    ;
    assert(1_000_000 - 2 <= s <= 1_000_000) by (nonlinear_arith)
        requires
            n * s + x0 % n + x1 % n + x2 % n == n * 1_000_000,
            0 <= x0 % n < n,
            0 <= x1 % n < n,
            0 <= x2 % n < n,
            n > 0,
    ;
    assert(q.0 <= r.0 * r.0 + 2 * r.0) by (nonlinear_arith)
        requires
            q.0 < (r.0 + 1) * (r.0 + 1),
    ;
    assert(q.1 <= r.1 * r.1 + 2 * r.1) by (nonlinear_arith)
        requires
            q.1 < (r.1 + 1) * (r.1 + 1),
    ;
    assert(q.2 <= r.2 * r.2 + 2 * r.2) by (nonlinear_arith)
        requires
            q.2 < (r.2 + 1) * (r.2 + 1),
    ;
}

/// The fixed-point unit vector along `v` (the zero vector for zero).  For a
/// non-zero `v` its squared length lies between `DIR_SCALE² - 6·DIR_SCALE - 2`
/// and `DIR_SCALE²`.
pub fn normalize(v: Vector3) -> (r: Vector3)
    requires
        in_box(v@, 0x1000_0000_0000_0000),
    ensures
        r@ == unit(v@),
        -(DIR_SCALE as int) <= r.x <= DIR_SCALE as int,
        -(DIR_SCALE as int) <= r.y <= DIR_SCALE as int,
        -(DIR_SCALE as int) <= r.z <= DIR_SCALE as int,
        v@ == (0int, 0int, 0int) ==> r@ == (0int, 0int, 0int),
        v@ != (0int, 0int, 0int) ==> DIR_SCALE * DIR_SCALE - 6 * DIR_SCALE - 2 <= norm_sq(r@) <= DIR_SCALE
            * DIR_SCALE,
{
    let x: i128 = v.x as i128;
    let y: i128 = v.y as i128;
    let z: i128 = v.z as i128;
    assert(0 <= x * x <= 0x1000_0000_0000_0000 * 0x1000_0000_0000_0000i128) by (nonlinear_arith)
        requires -0x1000_0000_0000_0000 <= x <= 0x1000_0000_0000_0000;
    assert(0 <= y * y <= 0x1000_0000_0000_0000 * 0x1000_0000_0000_0000i128) by (nonlinear_arith)
        requires -0x1000_0000_0000_0000 <= y <= 0x1000_0000_0000_0000;
    assert(0 <= z * z <= 0x1000_0000_0000_0000 * 0x1000_0000_0000_0000i128) by (nonlinear_arith)
        requires -0x1000_0000_0000_0000 <= z <= 0x1000_0000_0000_0000;
    let n: u128 = (x * x + y * y + z * z) as u128;
    if n == 0 {
        assert(x == 0 && y == 0 && z == 0) by (nonlinear_arith)
            requires x * x + y * y + z * z == 0;
        return Vector3 { x: 0, y: 0, z: 0 };
    }
    let r = Vector3 { x: unit_coord_exec(v.x, n), y: unit_coord_exec(v.y, n), z: unit_coord_exec(v.z, n) };
    proof {
        let q = (
            (v.x as int * v.x as int * 1_000_000) / n as int,
            (v.y as int * v.y as int * 1_000_000) / n as int,
            (v.z as int * v.z as int * 1_000_000) / n as int,
        );
        let m = (
            if r.x >= 0 { r.x as int } else { -r.x },
            if r.y >= 0 { r.y as int } else { -r.y },
            if r.z >= 0 { r.z as int } else { -r.z },
        );
        assert(r.x * r.x == m.0 * m.0 && r.y * r.y == m.1 * m.1 && r.z * r.z == m.2 * m.2) by (nonlinear_arith)
            requires
                m.0 == r.x || m.0 == -r.x,
                m.1 == r.y || m.1 == -r.y,
                m.2 == r.z || m.2 == -r.z,
        ;
        lemma_unit_length(v@, n as int, q, m);
        assert(!(x == 0 && y == 0 && z == 0)) by (nonlinear_arith)
            requires
                n as int == x * x + y * y + z * z,
                n != 0,
        ;
    }
    r
}

/// Scaling a vector by a positive factor does not change its unit vector.
pub proof fn lemma_unit_ignores_length(v: (int, int, int), k: int)
    requires
        k > 0,
    ensures
        unit(scale3(v, k)) == unit(v),
{
    let w = scale3(v, k);
    let n = norm_sq(v);
    let kk = k * k;
    assert(norm_sq(w) == kk * n) by (nonlinear_arith)
        requires
            w == scale3(v, k),
            kk == k * k,
            n == norm_sq(v),
    ;
    assert(kk > 0) by (nonlinear_arith)
        requires
            k > 0,
            kk == k * k,
    ;
    if n > 0 {
        lemma_unit_coord_scaled(v.0, k, n);
        lemma_unit_coord_scaled(v.1, k, n);
        lemma_unit_coord_scaled(v.2, k, n);
    } else {
        assert(kk * n <= 0) by (nonlinear_arith)
            requires
                kk > 0,
                n <= 0,
        ;
    }
}

proof fn lemma_unit_coord_scaled(c: int, k: int, n: int)
    requires
        k > 0,
        n > 0,
    ensures
        unit_coord(c * k, k * k * n) == unit_coord(c, n),
{
    let x = c * c * 1_000_000;
    let kk = k * k;
    assert(kk > 0) by (nonlinear_arith)
        requires
            k > 0,
            kk == k * k,
    ;
    lemma_fundamental_div_mod(x, n);
    let q = x / n;
    let r = x % n;
    assert((c * k) * (c * k) * 1_000_000 == q * (kk * n) + kk * r) by (nonlinear_arith)
        requires
            x == n * q + r,
            x == c * c * 1_000_000,
            kk == k * k,
    ;
    assert(0 <= kk * r < kk * n) by (nonlinear_arith)
        requires
            0 <= r < n,
            kk > 0,
    ;
    lemma_fundamental_div_mod_converse((c * k) * (c * k) * 1_000_000, kk * n, q, kk * r);
    assert(c * k >= 0 <==> c >= 0) by (nonlinear_arith)
        requires
            k > 0,
    ;
}

/// Whether every coordinate of `v` lies in `[-lim, lim]`.
pub open spec fn in_box(v: (int, int, int), lim: int) -> bool {
    -lim <= v.0 <= lim && -lim <= v.1 <= lim && -lim <= v.2 <= lim
}

/// Squared distance between two points no farther than 2^61 from the origin
/// on any axis.
pub fn distance_squared(a: Vector3, b: Vector3) -> (r: u128)
    requires
        in_box(a@, 0x2000_0000_0000_0000),
        in_box(b@, 0x2000_0000_0000_0000),
    ensures
        r as int == dist_sq(a@, b@),
{
    let dx: i128 = a.x as i128 - b.x as i128;
    let dy: i128 = a.y as i128 - b.y as i128;
    let dz: i128 = a.z as i128 - b.z as i128;
    assert(0 <= dx * dx <= 0x4000_0000_0000_0000 * 0x4000_0000_0000_0000i128) by (nonlinear_arith)
        requires -0x4000_0000_0000_0000 <= dx <= 0x4000_0000_0000_0000;
    assert(0 <= dy * dy <= 0x4000_0000_0000_0000 * 0x4000_0000_0000_0000i128) by (nonlinear_arith)
        requires -0x4000_0000_0000_0000 <= dy <= 0x4000_0000_0000_0000;
    assert(0 <= dz * dz <= 0x4000_0000_0000_0000 * 0x4000_0000_0000_0000i128) by (nonlinear_arith)
        requires -0x4000_0000_0000_0000 <= dz <= 0x4000_0000_0000_0000;
    (dx * dx) as u128 + (dy * dy) as u128 + (dz * dz) as u128
}

} // verus!
