//! Exact decimal numbers, held as sign, mantissa and power-of-ten exponent,
//! the parts of a JSON number. Arithmetic on them is exact: a result that the
//! parts cannot hold is reported, never rounded.

use vstd::prelude::*;

verus! {

/// Ten to the power `n`.
pub open spec fn pow10(n: nat) -> int
    decreases n,
{
    if n == 0 {
        1
    } else {
        10 * pow10((n - 1) as nat)
    }
}

/// Bound on a mantissa scaled across the largest bridged gap.
pub const SCALED_BOUND: i128 = 18_446_744_073_709_551_615_000_000_000_000_000_000;

/// Largest gap between two exponents that the exact arithmetic bridges.
pub const MAX_EXPONENT_GAP: i16 = 18;

pub proof fn lemma_pow10_positive(n: nat)
    ensures
        pow10(n) >= 1,
    decreases n,
{
    if n > 0 {
        lemma_pow10_positive((n - 1) as nat);
    }
}

pub proof fn lemma_pow10_monotonic(a: nat, b: nat)
    requires
        a <= b,
    ensures
        pow10(a) <= pow10(b),
    decreases b,
{
    if a < b {
        lemma_pow10_monotonic(a, (b - 1) as nat);
        lemma_pow10_positive((b - 1) as nat);
    }
}

proof fn lemma_pow10_18()
    ensures
        pow10(18) == 1_000_000_000_000_000_000int,
        pow10(19) == 10_000_000_000_000_000_000int,
        pow10(20) == 100_000_000_000_000_000_000int,
{
    reveal_with_fuel(pow10, 21);
}

/// A decimal number `(-1)^(!positive) * mantissa * 10^exponent`, in the parts
/// that a JSON number carries.
#[derive(Clone, Copy, Debug, PartialEq, Eq, Structural)]
pub struct Decimal {
    pub positive: bool,
    pub mantissa: u64,
    pub exponent: i16,
}

/// The canonical decimal of the integer `x` counted in units of `10^e`
/// (zero is positive).
pub open spec fn dec_of(x: int, e: int) -> Decimal {
    Decimal {
        positive: x >= 0,
        mantissa: (if x >= 0 { x } else { -x }) as u64,
        exponent: e as i16,
    }
}

/// Whether `x` units of `10^e` fit the parts of a `Decimal`.
pub open spec fn fits(x: int, e: int) -> bool {
    -(u64::MAX as int) <= x <= u64::MAX as int && i16::MIN <= e <= i16::MAX
}

pub open spec fn min_exp(a: Decimal, b: Decimal) -> int {
    if a.exponent <= b.exponent {
        a.exponent as int
    } else {
        b.exponent as int
    }
}

pub open spec fn gap(a: Decimal, b: Decimal) -> int {
    if a.exponent <= b.exponent {
        b.exponent - a.exponent
    } else {
        a.exponent - b.exponent
    }
}

impl Decimal {
    /// The signed mantissa.
    pub open spec fn signed(self) -> int {
        if self.positive {
            self.mantissa as int
        } else {
            -(self.mantissa as int)
        }
    }

    /// The value as a count of units of `10^e`, for `e <= exponent`.
    pub open spec fn scaled(self, e: int) -> int {
        self.signed() * pow10((self.exponent - e) as nat)
    }

    /// Two numbers are the same value (as JSON numbers compare).
    pub open spec fn same_value(self, other: Decimal) -> bool {
        self.scaled(min_exp(self, other)) == other.scaled(min_exp(self, other))
    }

    /// Whether `self - other` can be computed exactly and held as a `Decimal`.
    pub open spec fn sub_fits(self, other: Decimal) -> bool {
        gap(self, other) <= MAX_EXPONENT_GAP && fits(
            self.scaled(min_exp(self, other)) - other.scaled(min_exp(self, other)),
            min_exp(self, other),
        )
    }

    /// The exact difference, at the smaller of the two exponents.
    pub open spec fn sub_spec(self, other: Decimal) -> Decimal {
        dec_of(
            self.scaled(min_exp(self, other)) - other.scaled(min_exp(self, other)),
            min_exp(self, other),
        )
    }

    pub fn from_u64(n: u64) -> (r: Decimal)
        ensures
            r == dec_of(n as int, 0),
    {
        Decimal { positive: true, mantissa: n, exponent: 0 }
    }

    /// The value counted in units of `10^e`.
    pub fn scale_to(&self, e: i16) -> (r: i128)
        requires
            e <= self.exponent,
            self.exponent - e <= MAX_EXPONENT_GAP,
        ensures
            r == self.scaled(e as int),
            -SCALED_BOUND <= r <= SCALED_BOUND,
    {
        let k: i16 = self.exponent - e;
        let mut r: i128 = self.mantissa as i128;
        let mut i: i16 = 0;
        proof {
            lemma_pow10_18();
        }
        while i < k
            invariant
                0 <= i <= k <= 18,
                r == (self.mantissa as int) * pow10(i as nat),
                0 <= r <= SCALED_BOUND,
                pow10(18) == 1_000_000_000_000_000_000int,
            decreases k - i,
        {
            proof {
                lemma_pow10_monotonic((i + 1) as nat, 18);
                lemma_pow10_positive((i + 1) as nat);
                assert((self.mantissa as int) * pow10((i + 1) as nat) <= (u64::MAX as int) * pow10(
                    18,
                )) by (nonlinear_arith)
                    requires
                        pow10((i + 1) as nat) <= pow10(18),
                        pow10((i + 1) as nat) >= 1,
                        0 <= self.mantissa <= u64::MAX,
                ;
                assert(pow10((i + 1) as nat) == 10 * pow10(i as nat));
                assert((self.mantissa as int) * pow10((i + 1) as nat) == 10 * ((self.mantissa as int)
                    * pow10(i as nat))) by (nonlinear_arith)
                    requires
                        pow10((i + 1) as nat) == 10 * pow10(i as nat),
                ;
            }
            r = r * 10;
            i = i + 1;
        }
        proof {
            lemma_pow10_positive(k as nat);
            assert(0 <= (self.mantissa as int) * pow10(k as nat)) by (nonlinear_arith)
                requires
                    pow10(k as nat) >= 1,
            ;
            assert(-((self.mantissa as int) * pow10(k as nat)) == (-(self.mantissa as int)) * pow10(
                k as nat,
            )) by (nonlinear_arith);
        }
        if self.positive {
            r
        } else {
            -r
        }
    }

    /// Whether two numbers have the same value.
    pub fn same_value_as(&self, other: &Decimal) -> (r: bool)
        ensures
            r == self.same_value(*other),
    {
        let e: i16 = if self.exponent <= other.exponent {
            self.exponent
        } else {
            other.exponent
        };
        let g: i32 = if self.exponent <= other.exponent {
            other.exponent as i32 - self.exponent as i32
        } else {
            self.exponent as i32 - other.exponent as i32
        };
        if g <= MAX_EXPONENT_GAP as i32 {
            self.scale_to(e) == other.scale_to(e)
        } else if g == MAX_EXPONENT_GAP as i32 + 1 {
            let (small, big) = if self.exponent <= other.exponent {
                (*self, *other)
            } else {
                (*other, *self)
            };
            proof {
                lemma_pow10_18();
                assert(big.scaled(min_exp(*self, *other)) == big.signed() * pow10(19));
                assert(small.scaled(min_exp(*self, *other)) == small.signed());
                lemma_signed_times(big, small, pow10(19));
            }
            let wide: u128 = big.mantissa as u128 * 10_000_000_000_000_000_000u128;
            (small.mantissa == 0 && big.mantissa == 0) || (small.positive == big.positive && wide
                == small.mantissa as u128)
        } else {
            proof {
                lemma_far_apart(*self, *other);
            }
            self.mantissa == 0 && other.mantissa == 0
        }
    }

    /// The exact difference `self - other`, or `None` where the exponents lie
    /// too far apart or the result leaves the range of a `Decimal`.
    pub fn checked_sub(&self, other: &Decimal) -> (r: Option<Decimal>)
        ensures
            r == (if self.sub_fits(*other) {
                Some(self.sub_spec(*other))
            } else {
                None::<Decimal>
            }),
    {
        let e: i16 = if self.exponent <= other.exponent {
            self.exponent
        } else {
            other.exponent
        };
        let g: i32 = if self.exponent <= other.exponent {
            other.exponent as i32 - self.exponent as i32
        } else {
            self.exponent as i32 - other.exponent as i32
        };
        if g > MAX_EXPONENT_GAP as i32 {
            return None;
        }
        let a = self.scale_to(e);
        let b = other.scale_to(e);
        from_scaled(a - b, e)
    }
}

/// The canonical decimal of `x` units of `10^e`, where it fits.
pub fn from_scaled(x: i128, e: i16) -> (r: Option<Decimal>)
    ensures
        r == (if fits(x as int, e as int) {
            Some(dec_of(x as int, e as int))
        } else {
            None::<Decimal>
        }),
{
    if x > u64::MAX as i128 || x < -(u64::MAX as i128) {
        None
    } else if x >= 0 {
        Some(Decimal { positive: true, mantissa: x as u64, exponent: e })
    } else {
        Some(Decimal { positive: false, mantissa: (-x) as u64, exponent: e })
    }
}

proof fn lemma_signed_times(big: Decimal, small: Decimal, p: int)
    requires
        p == 10_000_000_000_000_000_000int,
    ensures
        (big.signed() * p == small.signed()) == ((small.mantissa == 0 && big.mantissa == 0) || (
        small.positive == big.positive && (big.mantissa as int) * p == small.mantissa as int)),
{
    let bm = big.mantissa as int;
    let sm = small.mantissa as int;
    assert((-bm) * p == -(bm * p)) by (nonlinear_arith);
    assert(bm * p >= 0) by (nonlinear_arith)
        requires
            bm >= 0,
            p >= 0,
    ;
    assert(bm == 0 ==> bm * p == 0) by (nonlinear_arith);
    assert(bm > 0 ==> bm * p >= p) by (nonlinear_arith)
        requires
            p >= 0,
    ;
}

/// Where the exponents differ by more than the bridged gap, two numbers are
/// equal only when both are zero.
proof fn lemma_far_apart(a: Decimal, b: Decimal)
    requires
        gap(a, b) > MAX_EXPONENT_GAP + 1,
    ensures
        a.same_value(b) == (a.mantissa == 0 && b.mantissa == 0),
{
    let e = min_exp(a, b);
    lemma_pow10_18();
    if a.exponent <= b.exponent {
        lemma_pow10_monotonic(20, (b.exponent - e) as nat);
        assert(a.scaled(e) == a.signed());
        lemma_big_nonzero(b.signed(), pow10((b.exponent - e) as nat), a.signed());
    } else {
        lemma_pow10_monotonic(20, (a.exponent - e) as nat);
        assert(b.scaled(e) == b.signed());
        lemma_big_nonzero(a.signed(), pow10((a.exponent - e) as nat), b.signed());
    }
}

proof fn lemma_big_nonzero(s: int, p: int, t: int)
    requires
        p >= 100_000_000_000_000_000_000int,
        -(u64::MAX as int) <= s <= u64::MAX as int,
        -(u64::MAX as int) <= t <= u64::MAX as int,
    ensures
        (s * p == t) == (s == 0 && t == 0),
{
    if s == 0 {
        assert(s * p == 0) by (nonlinear_arith)
            requires
                s == 0,
        ;
    } else if s > 0 {
        assert(s * p >= p) by (nonlinear_arith)
            requires
                s >= 1,
                p >= 0,
        ;
        assert(s * p != t);
    } else if s < 0 {
        assert(s * p <= -p) by (nonlinear_arith)
            requires
                s <= -1,
                p >= 0,
        ;
        assert(s * p != t);
    }
}

} // verus!
