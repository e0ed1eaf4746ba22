//! Exact fixed-precision decimal numbers.

use vstd::prelude::*;

verus! {

/// Number of digits kept after the decimal point.
pub const FRACTION_DIGITS: u32 = 8;

/// Number of units that make up the value one.
pub const UNITS_PER_ONE: i64 = 100_000_000;

/// A signed decimal with eight fractional digits, held as a whole number of
/// units of 10^-8. Addition, subtraction and comparison are exact.
#[derive(Clone, Copy, Debug, PartialEq, Eq, Structural, PartialOrd, Ord, Hash)]
pub struct Decimal {
    pub units: i64,
}

impl View for Decimal {
    type V = int;

    /// The value, counted in units.
    open spec fn view(&self) -> int {
        self.units as int
    }
}

/// Whether a unit count can be held by a `Decimal`.
pub open spec fn representable(units: int) -> bool {
    i64::MIN <= units <= i64::MAX
}

/// The midpoint of two unit counts, rounded toward negative infinity.
pub open spec fn midpoint_units(a: int, b: int) -> int {
    (a + b) / 2
}

/// Ten to the power `n`.
pub open spec fn pow10(n: nat) -> int
    decreases n,
{
    if n == 0 {
        1
    } else {
        10 * pow10((n - 1) as nat)
    }
}

/// Whether `units` units are exactly the number `mantissa * 10^-scale`.
pub open spec fn is_units_of(units: int, mantissa: int, scale: nat) -> bool {
    units * pow10(scale) == mantissa * pow10(FRACTION_DIGITS as nat)
}

/// The number of units that is exactly `mantissa * 10^-scale`, if there is
/// one that a `Decimal` can hold.
pub open spec fn exact_units(mantissa: int, scale: nat) -> Option<int> {
    if exists|units: int| representable(units) && is_units_of(units, mantissa, scale) {
        Some(choose|units: int| representable(units) && is_units_of(units, mantissa, scale))
    } else {
        None
    }
}

/// A decimal number as a mantissa and a scale: the number
/// `mantissa * 10^-scale`.
#[derive(Clone, Copy, Debug, PartialEq, Eq, Structural)]
pub struct DecimalParts {
    pub mantissa: i128,
    pub scale: u32,
}

/// A power of ten is positive.
pub proof fn lemma_pow10_positive(n: nat)
    ensures
        pow10(n) > 0,
    decreases n,
{
    if n > 0 {
        lemma_pow10_positive((n - 1) as nat);
    }
}

/// Powers of ten multiply by adding the exponents.
pub proof fn lemma_pow10_add(a: nat, b: nat)
    ensures
        pow10(a + b) == pow10(a) * pow10(b),
    decreases a,
{
    if a > 0 {
        lemma_pow10_add((a - 1) as nat, b);
        assert(10 * (pow10((a - 1) as nat) * pow10(b)) == (10 * pow10((a - 1) as nat)) * pow10(b))
            by (nonlinear_arith);
    } else {
        assert(pow10(a) * pow10(b) == pow10(b)) by (nonlinear_arith)
            requires
                pow10(a) == 1,
        ;
    }
}

/// Ten to the power eight is the number of units in one, and no smaller
/// power of ten exceeds it.
pub proof fn lemma_pow10_up_to_eight(n: nat)
    requires
        n <= 8,
    ensures
        pow10(8) == 100_000_000,
        1 <= pow10(n) <= 100_000_000,
{
    reveal_with_fuel(pow10, 9);
    lemma_pow10_positive(n);
    lemma_pow10_positive((8 - n) as nat);
    lemma_pow10_add(n, (8 - n) as nat);
    assert(pow10(n) <= pow10(n) * pow10((8 - n) as nat)) by (nonlinear_arith)
        requires
            pow10(n) >= 1,
            pow10((8 - n) as nat) >= 1,
    ;
}

/// At most one number of units is exactly a given decimal number.
pub proof fn lemma_units_unique(a: int, b: int, mantissa: int, scale: nat)
    requires
        is_units_of(a, mantissa, scale),
        is_units_of(b, mantissa, scale),
    ensures
        a == b,
{
    lemma_pow10_positive(scale);
    assert(a == b) by (nonlinear_arith)
        requires
            a * pow10(scale) == b * pow10(scale),
            pow10(scale) > 0,
    ;
}

/// A number with a digit that is not zero beyond the eighth fractional
/// digit is not a whole number of units: if `magnitude`, which is
/// `rest * 10^done`, is `units * 10^(done + more)` with `more` positive,
/// then `rest` ends in zero.
proof fn lemma_needs_trailing_zero(units: int, rest: int, done: nat, more: nat)
    requires
        more > 0,
        units * pow10(done + more) == rest * pow10(done),
    ensures
        rest % 10 == 0,
{
    lemma_pow10_positive(done);
    lemma_pow10_add(done, more);
    lemma_pow10_add(1, (more - 1) as nat);
    assert(pow10(1) == 10) by {
        assert(pow10(0) == 1);
    }
    let p = pow10(done);
    let q = pow10((more - 1) as nat);
    assert(rest == units * (10 * q)) by (nonlinear_arith)
        requires
            units * (p * (10 * q)) == rest * p,
            p > 0,
    ;
    assert(rest == 10 * (units * q)) by (nonlinear_arith)
        requires
            rest == units * (10 * q),
    ;
    assert(rest % 10 == 0) by (nonlinear_arith)
        requires
            rest == 10 * (units * q),
    ;
}

impl Decimal {
    /// The decimal that is exactly `mantissa * 10^-scale`, if that number is
    /// a whole number of units within range: `None` if it has a digit that
    /// is not zero beyond the eighth fractional digit, or is too large.
    pub fn from_parts(mantissa: i128, scale: u32) -> (r: Option<Decimal>)
        ensures
            (match exact_units(mantissa as int, scale as nat) {
                Some(units) => r matches Some(d) && d@ == units,
                None => r is None,
            }),
    {
        let r = Self::convert_parts(mantissa, scale);
        proof {
            if let Some(d) = r {
                assert(representable(d@) && is_units_of(d@, mantissa as int, scale as nat));
                let units = choose|units: int|
                    representable(units) && is_units_of(units, mantissa as int, scale as nat);
                lemma_units_unique(d@, units, mantissa as int, scale as nat);
            }
        }
        r
    }

    fn convert_parts(mantissa: i128, scale: u32) -> (r: Option<Decimal>)
        ensures
            r matches Some(d) ==> is_units_of(d@, mantissa as int, scale as nat),
            r is None ==> forall|units: int|
                representable(units) ==> !is_units_of(units, mantissa as int, scale as nat),
    {
        if scale <= FRACTION_DIGITS {
            let mut factor: i128 = 1;
            let mut k: u32 = scale;
            while k < FRACTION_DIGITS
                invariant
                    scale <= k <= FRACTION_DIGITS,
                    factor == pow10((k - scale) as nat),
                    1 <= factor <= 100_000_000,
                decreases FRACTION_DIGITS - k,
            {
                proof {
                    lemma_pow10_up_to_eight((k + 1 - scale) as nat);
                }
                factor = factor * 10;
                k = k + 1;
            }
            proof {
                lemma_pow10_add((FRACTION_DIGITS - scale) as nat, scale as nat);
                lemma_pow10_positive(scale as nat);
                let exact = mantissa * factor;
                assert(exact * pow10(scale as nat) == mantissa * (factor * pow10(scale as nat)))
                    by (nonlinear_arith)
                    requires
                        exact == mantissa * factor,
                ;
                assert forall|units: int|
                    is_units_of(units, mantissa as int, scale as nat) implies units == exact by {
                    lemma_units_unique(units, exact, mantissa as int, scale as nat);
                }
                assert(mantissa > i64::MAX ==> exact > i64::MAX) by (nonlinear_arith)
                    requires
                        exact == mantissa * factor,
                        factor >= 1,
                ;
                assert(mantissa < i64::MIN ==> exact < i64::MIN) by (nonlinear_arith)
                    requires
                        exact == mantissa * factor,
                        factor >= 1,
                ;
                assert(i64::MIN <= mantissa <= i64::MAX ==> -0x8000_0000_0000_0000 * 100_000_000
                    <= exact <= 0x8000_0000_0000_0000 * 100_000_000) by (nonlinear_arith)
                    requires
                        exact == mantissa * factor,
                        1 <= factor <= 100_000_000,
                ;
            }
            if mantissa < i64::MIN as i128 || mantissa > i64::MAX as i128 {
                return None;
            }
            let units: i128 = mantissa * factor;
            if units < i64::MIN as i128 || units > i64::MAX as i128 {
                None
            } else {
                Some(Decimal { units: units as i64 })
            }
        } else {
            let negative = mantissa < 0;
            let magnitude: u128 = if negative {
                (-(mantissa + 1)) as u128 + 1
            } else {
                mantissa as u128
            };
            if magnitude == 0 {
                proof {
                    assert(0 * pow10(scale as nat) == 0 * pow10(FRACTION_DIGITS as nat))
                        by (nonlinear_arith);
                }
                return Some(Decimal { units: 0 });
            }
            let mut rest: u128 = magnitude;
            let mut k: u32 = FRACTION_DIGITS;
            assert(rest * 1 == rest) by (nonlinear_arith);
            while k < scale
                invariant
                    FRACTION_DIGITS <= k <= scale,
                    rest > 0,
                    magnitude == rest * pow10((k - FRACTION_DIGITS) as nat),
                    magnitude == if negative {
                        -mantissa
                    } else {
                        mantissa as int
                    },
                decreases scale - k,
            {
                let ghost done = (k - FRACTION_DIGITS) as nat;
                if rest % 10 != 0 {
                    proof {
                        let more = (scale - k) as nat;
                        lemma_pow10_add(FRACTION_DIGITS as nat, done + more);
                        lemma_pow10_positive(FRACTION_DIGITS as nat);
                        let eight = pow10(FRACTION_DIGITS as nat);
                        let beyond = pow10(done + more);
                        assert forall|units: int|
                            is_units_of(units, mantissa as int, scale as nat) implies false by {
                            assert(units * beyond == mantissa) by (nonlinear_arith)
                                requires
                                    units * (eight * beyond) == mantissa * eight,
                                    eight > 0,
                            ;
                            let signed = if negative {
                                -units
                            } else {
                                units
                            };
                            assert(signed * beyond == rest * pow10(done)) by (nonlinear_arith)
                                requires
                                    units * beyond == mantissa,
                                    magnitude == rest * pow10(done),
                                    magnitude == if negative {
                                        -mantissa
                                    } else {
                                        mantissa as int
                                    },
                                    signed == if negative {
                                        -units
                                    } else {
                                        units
                                    },
                            ;
                            lemma_needs_trailing_zero(signed, rest as int, done, more);
                        }
                    }
                    return None;
                }
                proof {
                    let tenth = rest as int / 10;
                    assert(tenth * (10 * pow10(done)) == (10 * tenth) * pow10(done))
                        by (nonlinear_arith);
                }
                rest = rest / 10;
                k = k + 1;
            }
            proof {
                let signed = if negative {
                    -(rest as int)
                } else {
                    rest as int
                };
                let beyond = pow10((scale - FRACTION_DIGITS) as nat);
                let eight = pow10(FRACTION_DIGITS as nat);
                lemma_pow10_add(FRACTION_DIGITS as nat, (scale - FRACTION_DIGITS) as nat);
                assert(signed * beyond == mantissa) by (nonlinear_arith)
                    requires
                        magnitude == rest * beyond,
                        magnitude == if negative {
                            -mantissa
                        } else {
                            mantissa as int
                        },
                        signed == if negative {
                            -(rest as int)
                        } else {
                            rest as int
                        },
                ;
                assert(signed * (eight * beyond) == mantissa * eight) by (nonlinear_arith)
                    requires
                        signed * beyond == mantissa,
                ;
                assert forall|units: int|
                    is_units_of(units, mantissa as int, scale as nat) implies units == signed by {
                    lemma_units_unique(units, signed, mantissa as int, scale as nat);
                }
            }
            if negative {
                if rest > 0x8000_0000_0000_0000u128 {
                    None
                } else {
                    Some(Decimal { units: (-(rest as i128)) as i64 })
                }
            } else {
                if rest > 0x7fff_ffff_ffff_ffffu128 {
                    None
                } else {
                    Some(Decimal { units: rest as i64 })
                }
            }
        }
    }

    /// The decimal made of `units` units.
    pub fn from_units(units: i64) -> (d: Decimal)
        ensures
            d@ == units,
    {
        Decimal { units }
    }

    /// The value zero.
    pub fn zero() -> (d: Decimal)
        ensures
            d@ == 0,
    {
        Decimal { units: 0 }
    }

    /// The whole number `whole`, unless it is out of range.
    pub fn from_int(whole: i64) -> (r: Option<Decimal>)
        ensures
            r is Some <==> representable(whole * UNITS_PER_ONE),
            r matches Some(d) ==> d@ == whole * UNITS_PER_ONE,
    {
        match whole.checked_mul(UNITS_PER_ONE) {
            Some(units) => Some(Decimal { units }),
            None => None,
        }
    }

    /// The number of units.
    pub fn units(&self) -> (u: i64)
        ensures
            u == self@,
    {
        self.units
    }

    pub fn is_zero(&self) -> (r: bool)
        ensures
            r == (self@ == 0),
    {
        self.units == 0
    }

    pub fn is_positive(&self) -> (r: bool)
        ensures
            r == (self@ > 0),
    {
        self.units > 0
    }

    /// The exact sum, unless it is out of range.
    pub fn checked_add(self, other: Decimal) -> (r: Option<Decimal>)
        ensures
            r is Some <==> representable(self@ + other@),
            r matches Some(d) ==> d@ == self@ + other@,
    {
        match self.units.checked_add(other.units) {
            Some(units) => Some(Decimal { units }),
            None => None,
        }
    }

    /// The exact difference, unless it is out of range.
    pub fn checked_sub(self, other: Decimal) -> (r: Option<Decimal>)
        ensures
            r is Some <==> representable(self@ - other@),
            r matches Some(d) ==> d@ == self@ - other@,
    {
        match self.units.checked_sub(other.units) {
            Some(units) => Some(Decimal { units }),
            None => None,
        }
    }

    /// The smaller of the two values.
    pub fn min(self, other: Decimal) -> (d: Decimal)
        ensures
            d@ == if self@ <= other@ { self@ } else { other@ },
    {
        if self.units <= other.units {
            self
        } else {
            other
        }
    }

    /// The midpoint of the two values. Where the exact midpoint falls between
    /// two units it is rounded toward negative infinity.
    pub fn midpoint(self, other: Decimal) -> (d: Decimal)
        ensures
            d@ == midpoint_units(self@, other@),
    {
        let sum: i128 = self.units as i128 + other.units as i128;
        let half: i128 = if sum >= 0 {
            sum / 2
        } else {
            -((1 - sum) / 2)
        };
        Decimal { units: half as i64 }
    }
}

} // verus!
