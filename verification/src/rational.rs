use vstd::prelude::*;

verus! {

/// Magnitude cap on the components of two rationals that are compared with
/// [`Rat::eq_rat`]: the cross products of components within this cap cannot
/// overflow an `i128`.
pub const CMP_LIMIT: i128 = 1_000_000_000_000_000_000;

/// An exact rational number: `num / den` with `den > 0`.
///
/// Statistics over fixed-point integer samples are returned as values of this
/// type, so every contract can pin the numerator and denominator exactly.
#[derive(Clone, Copy, Debug, PartialEq, Eq, Structural)]
pub struct Rat {
    pub num: i128,
    pub den: i128,
}

impl Rat {
    /// A rational is well formed when its denominator is positive.
    pub open spec fn wf(self) -> bool {
        self.den > 0
    }

    /// Value equality of two rationals, by cross multiplication.
    pub open spec fn eq_spec(self, other: Rat) -> bool {
        self.num * other.den == other.num * self.den
    }

    pub fn new(num: i128, den: i128) -> (r: Rat)
        requires
            den > 0,
        ensures
            r.num == num,
            r.den == den,
            r.wf(),
    {
        Rat { num, den }
    }

    pub fn from_int(n: i64) -> (r: Rat)
        ensures
            r.num == n as int,
            r.den == 1,
            r.wf(),
    {
        Rat { num: n as i128, den: 1 }
    }

    /// Decides value equality of two rationals.
    pub fn eq_rat(&self, other: &Rat) -> (b: bool)
        requires
            self.wf(),
            other.wf(),
            -CMP_LIMIT <= self.num <= CMP_LIMIT,
            self.den <= CMP_LIMIT,
            -CMP_LIMIT <= other.num <= CMP_LIMIT,
            other.den <= CMP_LIMIT,
        ensures
            b == self.eq_spec(*other),
    {
        proof {
            assert(-(CMP_LIMIT * CMP_LIMIT) <= self.num * other.den <= CMP_LIMIT * CMP_LIMIT)
                by (nonlinear_arith)
                requires
                    -CMP_LIMIT <= self.num <= CMP_LIMIT,
                    0 < other.den <= CMP_LIMIT,
            ;
            assert(-(CMP_LIMIT * CMP_LIMIT) <= other.num * self.den <= CMP_LIMIT * CMP_LIMIT)
                by (nonlinear_arith)
                requires
                    -CMP_LIMIT <= other.num <= CMP_LIMIT,
                    0 < self.den <= CMP_LIMIT,
            ;
        }
        self.num * other.den == other.num * self.den
    }
}

/// The integer square root: the unique `r >= 0` with `r * r <= x < (r + 1) * (r + 1)`,
/// defined by counting up from the square root of `x - 1`.
pub open spec fn isqrt_spec(x: int) -> int
    decreases x,
{
    if x <= 0 {
        0
    } else {
        let r = isqrt_spec(x - 1);
        if (r + 1) * (r + 1) <= x {
            r + 1
        } else {
            r
        }
    }
}

/// `isqrt_spec(x)` is a square root floor: its square is at most `x` and the
/// next square is above `x`.
pub proof fn lemma_isqrt_spec(x: int)
    requires
        x >= 0,
    ensures
        0 <= isqrt_spec(x),
        isqrt_spec(x) * isqrt_spec(x) <= x,
        x < (isqrt_spec(x) + 1) * (isqrt_spec(x) + 1),
    decreases x,
{
    if x == 0 {
        assert(isqrt_spec(0) == 0);
    } else {
        lemma_isqrt_spec(x - 1);
        let p = isqrt_spec(x - 1);
        if (p + 1) * (p + 1) <= x {
            // Here x - 1 < (p + 1) * (p + 1) <= x forces x == (p + 1) * (p + 1).
            assert(x == (p + 1) * (p + 1));
            assert((p + 1) * (p + 1) < (p + 2) * (p + 2)) by (nonlinear_arith)
                requires
                    p >= 0,
            ;
        }
    }
}

/// Any `r` in the square-root-floor bracket of `x` is `isqrt_spec(x)`.
pub proof fn lemma_isqrt_unique(x: int, r: int)
    requires
        x >= 0,
        r >= 0,
        r * r <= x,
        x < (r + 1) * (r + 1),
    ensures
        r == isqrt_spec(x),
{
    lemma_isqrt_spec(x);
    let q = isqrt_spec(x);
    if r < q {
        assert((r + 1) * (r + 1) <= q * q) by (nonlinear_arith)
            requires
                0 <= r,
                r + 1 <= q,
        ;
    }
    if q < r {
        assert((q + 1) * (q + 1) <= r * r) by (nonlinear_arith)
            requires
                0 <= q,
                q + 1 <= r,
        ;
    }
}

/// Computes the integer square root of `x` by binary search.
pub fn isqrt_u128(x: u128) -> (r: u128)
    ensures
        r as int == isqrt_spec(x as int),
        (r as int) * (r as int) <= x as int,
        (x as int) < (r as int + 1) * (r as int + 1),
{
    let mut lo: u128 = 0;
    let mut hi: u128 = 0x1_0000_0000_0000_0000;
    proof {
        assert((x as int) < 0x1_0000_0000_0000_0000 * 0x1_0000_0000_0000_0000) by (nonlinear_arith)
            requires
                x <= u128::MAX,
        ;
    }
    while lo + 1 < hi
        invariant
            lo < hi,
            hi <= 0x1_0000_0000_0000_0000,
            (lo as int) * (lo as int) <= x as int,
            (x as int) < (hi as int) * (hi as int),
        decreases hi - lo,
    {
        let mid = lo + (hi - lo) / 2;
        proof {
            assert((mid as int) * (mid as int) <= 0xffff_ffff_ffff_ffff * 0xffff_ffff_ffff_ffff)
                by (nonlinear_arith)
                requires
                    mid <= 0xffff_ffff_ffff_ffff,
            ;
        }
        if mid * mid <= x {
            lo = mid;
        } else {
            hi = mid;
        }
    }
    proof {
        assert((x as int) < (lo as int + 1) * (lo as int + 1));
        lemma_isqrt_unique(x as int, lo as int);
    }
    lo
}

} // verus!
