//! Fixed-point plane geometry: points, vector operations and integer roots.

use vstd::prelude::*;

verus! {

/// Number of fixed-point steps in one path unit.
pub const SCALE: i64 = 100;

/// Largest magnitude of a position coordinate (in fixed-point steps).
pub const MAX_COORD: i64 = 524288;

/// Largest magnitude of a difference of two positions.
pub const MAX_VEC: i64 = 1048576;

/// A point or a vector in the plane, in hundredths of a path unit.
#[derive(Clone, Copy, Debug, PartialEq, Eq, Structural)]
pub struct Point {
    pub x: i64,
    pub y: i64,
}

/// The largest `r` with `r * r <= n`.
pub open spec fn floor_sqrt(n: nat) -> nat
    decreases n,
{
    if n == 0 {
        0
    } else {
        let r = floor_sqrt((n - 1) as nat);
        if (r + 1) * (r + 1) <= n {
            r + 1
        } else {
            r
        }
    }
}

/// `a / b` rounded toward zero, as Rust's integer division does.
pub open spec fn trunc_div(a: int, b: int) -> int {
    if a >= 0 {
        a / b
    } else {
        -((-a) / b)
    }
}

pub proof fn lemma_floor_sqrt(n: nat)
    ensures
        floor_sqrt(n) * floor_sqrt(n) <= n,
        n < (floor_sqrt(n) + 1) * (floor_sqrt(n) + 1),
    decreases n,
{
    if n == 0 {
        assert(floor_sqrt(0) == 0);
        assert(0 < (0 + 1) * (0 + 1)) by (nonlinear_arith);
    } else {
        lemma_floor_sqrt((n - 1) as nat);
        let r = floor_sqrt((n - 1) as nat);
        if (r + 1) * (r + 1) <= n {
            assert(floor_sqrt(n) == r + 1);
            assert(n < (r + 2) * (r + 2)) by (nonlinear_arith)
                requires
                    n - 1 < (r + 1) * (r + 1),
            ;
        } else {
            assert(floor_sqrt(n) == r);
        }
    }
}

/// The root is the only `r` with `r * r <= n < (r + 1) * (r + 1)`.
pub proof fn lemma_floor_sqrt_unique(n: nat, r: nat)
    requires
        r * r <= n,
        n < (r + 1) * (r + 1),
    ensures
        floor_sqrt(n) == r,
{
    lemma_floor_sqrt(n);
    let s = floor_sqrt(n);
    if s < r {
        assert((s + 1) * (s + 1) <= r * r) by (nonlinear_arith)
            requires
                s + 1 <= r,
        ;
    }
    if r < s {
        assert((r + 1) * (r + 1) <= s * s) by (nonlinear_arith)
            requires
                r + 1 <= s,
        ;
    }
}

/// Integer square root, rounded down.
pub fn isqrt(n: u64) -> (r: u64)
    requires
        n < 0x4000_0000_0000_0000,
    ensures
        r == floor_sqrt(n as nat),
        r < 0x8000_0000,
{
    let mut lo: u64 = 0;
    let mut hi: u64 = 0x8000_0000;
    assert(n < hi * hi);
    while hi - lo > 1
        invariant
            lo < hi <= 0x8000_0000,
            lo * lo <= n,
            n < hi * hi,
        decreases hi - lo,
    {
        let mid: u64 = lo + (hi - lo) / 2;
        assert(mid * mid <= 0x4000_0000_0000_0000) by (nonlinear_arith)
            requires
                mid <= 0x8000_0000,
        ;
        if mid * mid <= n {
            lo = mid;
        } else {
            hi = mid;
        }
    }
    proof {
        lemma_floor_sqrt_unique(n as nat, lo as nat);
    }
    lo
}

/// Division of a signed value by a positive one, rounded toward zero.
pub fn div_toward_zero(a: i128, b: i128) -> (r: i128)
    requires
        b > 0,
        a > i128::MIN,
    ensures
        r == trunc_div(a as int, b as int),
{
    if a >= 0 {
        a / b
    } else {
        let q: i128 = (-a) / b;
        -q
    }
}

impl Point {
    /// Both coordinates are within the range of a position.
    pub open spec fn in_bounds(self) -> bool {
        -MAX_COORD <= self.x <= MAX_COORD && -MAX_COORD <= self.y <= MAX_COORD
    }

    /// Both coordinates are within the range of a difference of positions.
    pub open spec fn is_small(self) -> bool {
        -MAX_VEC <= self.x <= MAX_VEC && -MAX_VEC <= self.y <= MAX_VEC
    }

    pub open spec fn spec_dot(self, o: Point) -> int {
        self.x * o.x + self.y * o.y
    }

    pub open spec fn spec_dist_sq(self, o: Point) -> int {
        (self.x - o.x) * (self.x - o.x) + (self.y - o.y) * (self.y - o.y)
    }

    /// Length of the vector, rounded down.
    pub open spec fn spec_norm(self) -> nat {
        floor_sqrt(self.spec_dot(self) as nat)
    }

    /// The vector stretched to the given length, each coordinate rounded
    /// toward zero; the zero vector stays zero.
    pub open spec fn spec_scaled_to(self, len: int) -> Point {
        if self.spec_norm() == 0 {
            Point { x: 0, y: 0 }
        } else {
            Point {
                x: trunc_div(self.x * len, self.spec_norm() as int) as i64,
                y: trunc_div(self.y * len, self.spec_norm() as int) as i64,
            }
        }
    }

    pub fn add(self, o: Point) -> (r: Point)
        requires
            i64::MIN <= self.x + o.x <= i64::MAX,
            i64::MIN <= self.y + o.y <= i64::MAX,
        ensures
            r.x == self.x + o.x,
            r.y == self.y + o.y,
    {
        Point { x: self.x + o.x, y: self.y + o.y }
    }

    pub fn sub(self, o: Point) -> (r: Point)
        requires
            i64::MIN <= self.x - o.x <= i64::MAX,
            i64::MIN <= self.y - o.y <= i64::MAX,
        ensures
            r.x == self.x - o.x,
            r.y == self.y - o.y,
    {
        Point { x: self.x - o.x, y: self.y - o.y }
    }

    pub fn neg(self) -> (r: Point)
        requires
            self.x > i64::MIN,
            self.y > i64::MIN,
        ensures
            r.x == -self.x,
            r.y == -self.y,
    {
        Point { x: -self.x, y: -self.y }
    }

    pub fn dot(&self, o: &Point) -> (r: i64)
        requires
            self.is_small(),
            o.is_small(),
        ensures
            r == self.spec_dot(*o),
            -2 * MAX_VEC * MAX_VEC <= r <= 2 * MAX_VEC * MAX_VEC,
    {
        proof {
            lemma_small_mul(self.x as int, o.x as int);
            lemma_small_mul(self.y as int, o.y as int);
        }
        self.x * o.x + self.y * o.y
    }

    pub fn dist_sq(&self, o: &Point) -> (r: i64)
        requires
            self.in_bounds(),
            o.in_bounds(),
        ensures
            r == self.spec_dist_sq(*o),
            0 <= r <= 2 * MAX_VEC * MAX_VEC,
    {
        let diff = self.sub(*o);
        proof {
            lemma_small_products(diff, diff);
        }
        diff.dot(&diff)
    }

    /// Euclidean distance, rounded down.
    pub fn dist(&self, o: &Point) -> (r: i64)
        requires
            self.in_bounds(),
            o.in_bounds(),
        ensures
            r == floor_sqrt(self.spec_dist_sq(*o) as nat),
            0 <= r <= 0x20_0000,
    {
        let d = self.dist_sq(o);
        let r = isqrt(d as u64);
        proof {
            lemma_floor_sqrt(d as nat);
            assert(r <= 0x20_0000) by (nonlinear_arith)
                requires
                    r * r <= d,
                    d <= 2 * MAX_VEC * MAX_VEC,
            ;
        }
        r as i64
    }

    /// The vector stretched to the given length (zero stays zero).
    pub fn scaled_to(&self, len: i64) -> (r: Point)
        requires
            self.is_small(),
            0 <= len <= MAX_VEC,
        ensures
            r == self.spec_scaled_to(len as int),
    {
        proof {
            lemma_small_products(*self, *self);
        }
        let n = isqrt(self.dot(self) as u64);
        if n == 0 {
            Point { x: 0, y: 0 }
        } else {
            proof {
                lemma_small_mul(self.x as int, len as int);
                lemma_small_mul(self.y as int, len as int);
                lemma_floor_sqrt(self.spec_dot(*self) as nat);
                lemma_scaled_fits(self.x as int, len as int, n as int, self.spec_dot(*self));
                lemma_scaled_fits(self.y as int, len as int, n as int, self.spec_dot(*self));
            }
            let x = div_toward_zero((self.x as i128) * (len as i128), n as i128);
            let y = div_toward_zero((self.y as i128) * (len as i128), n as i128);
            Point { x: x as i64, y: y as i64 }
        }
    }

    /// The vector stretched to one path unit (zero stays zero).
    pub fn unit(&self) -> (r: Point)
        requires
            self.is_small(),
        ensures
            r == self.spec_scaled_to(SCALE as int),
    {
        self.scaled_to(SCALE)
    }
}

pub proof fn lemma_small_mul(a: int, b: int)
    requires
        -MAX_VEC <= a <= MAX_VEC,
        -MAX_VEC <= b <= MAX_VEC,
    ensures
        -MAX_VEC * MAX_VEC <= a * b <= MAX_VEC * MAX_VEC,
{
    assert(-MAX_VEC * MAX_VEC <= a * b <= MAX_VEC * MAX_VEC) by (nonlinear_arith)
        requires
            -MAX_VEC <= a <= MAX_VEC,
            -MAX_VEC <= b <= MAX_VEC,
    ;
}

pub proof fn lemma_small_products(p: Point, q: Point)
    requires
        p.is_small(),
        q.is_small(),
    ensures
        -2 * MAX_VEC * MAX_VEC <= p.spec_dot(q) <= 2 * MAX_VEC * MAX_VEC,
        0 <= p.x * p.x <= p.spec_dot(p),
        0 <= p.y * p.y <= p.spec_dot(p),
{
    lemma_small_mul(p.x as int, q.x as int);
    lemma_small_mul(p.y as int, q.y as int);
    assert(p.x * p.x >= 0 && p.y * p.y >= 0) by (nonlinear_arith);
}

/// A coordinate stretched by `len / n`, with `n` the rounded-down length of
/// the vector, stays within the magnitude of `len`.
proof fn lemma_scaled_fits(a: int, len: int, n: int, sq: int)
    requires
        0 <= len <= MAX_VEC,
        n >= 1,
        n * n <= sq,
        sq < (n + 1) * (n + 1),
        a * a <= sq,
    ensures
        -2 * len <= trunc_div(a * len, n) <= 2 * len,
{
    // |a| < n + 1, so |a| <= n, and |a * len / n| <= len.
    assert(-n <= a <= n) by (nonlinear_arith)
        requires
            a * a <= sq,
            sq < (n + 1) * (n + 1),
            n >= 1,
    ;
    if a >= 0 {
        assert(a * len <= n * len) by (nonlinear_arith)
            requires
                0 <= a <= n,
                len >= 0,
        ;
        assert(0 <= a * len) by (nonlinear_arith)
            requires
                a >= 0,
                len >= 0,
        ;
        assert((a * len) / n <= len) by (nonlinear_arith)
            requires
                0 <= a * len <= n * len,
                n >= 1,
        ;
        assert((a * len) / n >= 0) by (nonlinear_arith)
            requires
                0 <= a * len,
                n >= 1,
        ;
    } else {
        let b = -a;
        assert(b * len <= n * len) by (nonlinear_arith)
            requires
                0 <= b <= n,
                len >= 0,
        ;
        assert(0 <= b * len) by (nonlinear_arith)
            requires
                b >= 0,
                len >= 0,
        ;
        assert(b * len == -(a * len)) by (nonlinear_arith)
            requires
                b == -a,
        ;
        assert((-(a * len)) / n <= len) by (nonlinear_arith)
            requires
                0 <= -(a * len) <= n * len,
                n >= 1,
        ;
        assert((-(a * len)) / n >= 0) by (nonlinear_arith)
            requires
                0 <= -(a * len),
                n >= 1,
        ;
    }
}

} // verus!
