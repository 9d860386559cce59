//! Fixed-point numeric values.
//!
//! The language works with decimal numbers carrying six fractional digits.
//! A `Num` stores the value scaled by `SCALE` in a signed 64-bit integer,
//! so every arithmetic operation is exact integer arithmetic; an operation
//! whose result does not fit the representable range reports failure
//! instead of overflowing. Two numbers are equal exactly when their scaled
//! representations are equal.

use vstd::prelude::*;
use crate::text::{dec_str, digit_char, u64_to_string};

verus! {

/// Scaling factor: one unit of the stored integer is one millionth.
pub const SCALE: i64 = 1_000_000;

/// A decimal number with six fractional digits, stored as `value * SCALE`.
#[derive(Debug, Clone, Copy, PartialEq, Eq, Structural)]
pub struct Num {
    /// The value scaled by `SCALE`.
    pub units: i64,
}

/// The absolute value of a mathematical integer.
pub open spec fn iabs(x: int) -> int {
    if x < 0 {
        -x
    } else {
        x
    }
}

/// Division truncating toward zero, as machine division does.
pub open spec fn trunc_div(x: int, d: int) -> int
    recommends
        d != 0,
{
    if (x < 0) != (d < 0) {
        -(iabs(x) / iabs(d))
    } else {
        iabs(x) / iabs(d)
    }
}

/// Remainder with the sign of the dividend, as machine remainder does.
pub open spec fn trunc_rem(x: int, d: int) -> int
    recommends
        d != 0,
{
    if x < 0 {
        -(iabs(x) % iabs(d))
    } else {
        iabs(x) % iabs(d)
    }
}

/// The scaled result of multiplying two numbers given by their units.
pub open spec fn mul_units(a: int, b: int) -> int {
    trunc_div(a * b, SCALE as int)
}

/// The scaled result of dividing two numbers given by their units.
pub open spec fn div_units(a: int, b: int) -> int
    recommends
        b != 0,
{
    trunc_div(a * (SCALE as int), b)
}

impl Num {
    /// The scaled integer the number stores, as a mathematical integer.
    pub open spec fn spec_units(self) -> int {
        self.units as int
    }

    /// The number representing the given whole integer.
    pub open spec fn spec_from_int(n: int) -> Num
        recommends
            i64::MIN <= n * SCALE <= i64::MAX,
    {
        Num { units: (n * SCALE) as i64 }
    }

    /// Build a number from a whole integer.
    pub fn from_i64(n: i64) -> (r: Num)
        requires
            i64::MIN <= n * SCALE <= i64::MAX,
        ensures
            r == Num::spec_from_int(n as int),
            r.spec_units() == n * SCALE,
    {
        Num { units: n * SCALE }
    }

    /// Build a number directly from its scaled representation.
    pub fn from_scaled(units: i64) -> (r: Num)
        ensures
            r.spec_units() == units,
    {
        Num { units }
    }

    /// True when the number is exactly zero.
    pub fn is_zero(&self) -> (r: bool)
        ensures
            r == (self.spec_units() == 0),
    {
        self.units == 0
    }

    /// Exact sum; `None` when the result leaves the representable range.
    pub fn checked_add(&self, other: &Num) -> (r: Option<Num>)
        ensures
            r is Some <==> i64::MIN <= self.spec_units() + other.spec_units() <= i64::MAX,
            r matches Some(n) ==> n.spec_units() == self.spec_units() + other.spec_units(),
    {
        match self.units.checked_add(other.units) {
            Some(u) => Some(Num { units: u }),
            None => None,
        }
    }

    /// Exact difference; `None` when the result leaves the representable range.
    pub fn checked_sub(&self, other: &Num) -> (r: Option<Num>)
        ensures
            r is Some <==> i64::MIN <= self.spec_units() - other.spec_units() <= i64::MAX,
            r matches Some(n) ==> n.spec_units() == self.spec_units() - other.spec_units(),
    {
        match self.units.checked_sub(other.units) {
            Some(u) => Some(Num { units: u }),
            None => None,
        }
    }

    /// Product, truncated toward zero at the sixth fractional digit;
    /// `None` when the result leaves the representable range.
    pub fn checked_mul(&self, other: &Num) -> (r: Option<Num>)
        ensures
            r is Some <==> i64::MIN <= mul_units(self.spec_units(), other.spec_units())
                <= i64::MAX,
            r matches Some(n) ==> n.spec_units() == mul_units(
                self.spec_units(),
                other.spec_units(),
            ),
    {
        proof {
            let a = self.units as int;
            let b = other.units as int;
            assert(i128::MIN <= a * b <= i128::MAX) by (nonlinear_arith)
                requires
                    i64::MIN <= a <= i64::MAX,
                    i64::MIN <= b <= i64::MAX,
            ;
        }
        let p: i128 = (self.units as i128) * (other.units as i128);
        let q: i128 = match p.checked_div(SCALE as i128) {
            Some(q) => q,
            None => {
                proof {
                    assert(false);
                }
                0
            },
        };
        if i64::MIN as i128 <= q && q <= i64::MAX as i128 {
            Some(Num { units: q as i64 })
        } else {
            None
        }
    }

    /// Quotient, truncated toward zero at the sixth fractional digit;
    /// `None` when the result leaves the representable range.
    pub fn checked_div(&self, other: &Num) -> (r: Option<Num>)
        requires
            other.spec_units() != 0,
        ensures
            r is Some <==> i64::MIN <= div_units(self.spec_units(), other.spec_units())
                <= i64::MAX,
            r matches Some(n) ==> n.spec_units() == div_units(
                self.spec_units(),
                other.spec_units(),
            ),
    {
        proof {
            let a = self.units as int;
            assert(i128::MIN <= a * (SCALE as int) <= i128::MAX) by (nonlinear_arith)
                requires
                    i64::MIN <= a <= i64::MAX,
            ;
        }
        let p: i128 = (self.units as i128) * (SCALE as i128);
        let q: i128 = match p.checked_div(other.units as i128) {
            Some(q) => q,
            None => {
                proof {
                    assert(false);
                }
                0
            },
        };
        if i64::MIN as i128 <= q && q <= i64::MAX as i128 {
            Some(Num { units: q as i64 })
        } else {
            None
        }
    }

    /// Remainder with the sign of the dividend; never leaves the range.
    pub fn rem(&self, other: &Num) -> (r: Num)
        requires
            other.spec_units() != 0,
        ensures
            r.spec_units() == trunc_rem(self.spec_units(), other.spec_units()),
    {
        let m: i128 = match (self.units as i128).checked_rem(other.units as i128) {
            Some(m) => m,
            None => {
                proof {
                    assert(false);
                }
                0
            },
        };
        proof {
            let x = self.units as int;
            let d = other.units as int;
            assert(0 <= iabs(x) % iabs(d) < iabs(d));
            if x == 0 {
                assert(iabs(x) % iabs(d) == 0) by (nonlinear_arith)
                    requires
                        x == 0,
                        d != 0,
                ;
            } else if x > 0 && d > 0 {
                assert(trunc_rem(x, d) == x % d);
            } else if x < 0 && d < 0 {
                assert(trunc_rem(x, d) == ((x * -1) % (d * -1)) * -1);
            } else if x < 0 {
                assert(trunc_rem(x, d) == ((x * -1) % d) * -1);
            } else {
                assert(trunc_rem(x, d) == x % (d * -1));
            }
            assert(m == trunc_rem(x, d));
        }
        Num { units: m as i64 }
    }

    /// Absolute value; `None` only for the one value whose negation does
    /// not fit the representable range.
    pub fn checked_abs(&self) -> (r: Option<Num>)
        ensures
            r is Some <==> self.spec_units() != i64::MIN,
            r matches Some(n) ==> n.spec_units() == iabs(self.spec_units()),
    {
        if self.units == i64::MIN {
            None
        } else if self.units < 0 {
            Some(Num { units: -self.units })
        } else {
            Some(Num { units: self.units })
        }
    }

    /// The rendered form of the number: minus sign for negatives, the whole
    /// part in decimal, and the fractional digits with trailing zeros
    /// dropped, after a point, only when they are not all zero.
    pub open spec fn spec_render(self) -> Seq<char> {
        render_units(self.spec_units())
    }

    /// Render the number as text: `8`, `-5.5`, `0.125`.
    pub fn render(&self) -> (r: String)
        ensures
            r@ == self.spec_render(),
    {
        proof {
            reveal_strlit("-");
            reveal_strlit(".");
        }
        let neg = self.units < 0;
        let mag: u64 = if self.units < 0 {
            (-(self.units as i128)) as u64
        } else {
            self.units as u64
        };
        proof {
            assert(mag as int == iabs(self.spec_units()));
        }
        let whole: u64 = mag / 1_000_000;
        let fracm: u64 = mag % 1_000_000;
        let mut r = String::new();
        if neg {
            r.append("-");
        }
        let w = u64_to_string(whole);
        r.append(w.as_str());
        if fracm != 0 {
            r.append(".");
            let f = frac_text(fracm, 6);
            r.append(f.as_str());
        }
        proof {
            assert(whole as nat == (mag as nat) / (SCALE as nat));
            assert(fracm as nat == (mag as nat) % (SCALE as nat));
            assert(r@ =~= self.spec_render());
        }
        r
    }
}

/// The rendered form of a number given by its scaled units: minus sign for
/// negatives, then the magnitude.
pub open spec fn render_units(units: int) -> Seq<char> {
    if units < 0 {
        seq!['-'] + render_mag(iabs(units) as nat)
    } else {
        render_mag(units as nat)
    }
}

/// The rendering of a non-negative scaled magnitude.
pub open spec fn render_mag(u: nat) -> Seq<char> {
    if u % (SCALE as nat) == 0 {
        dec_str(u / (SCALE as nat))
    } else {
        dec_str(u / (SCALE as nat)) + seq!['.'] + frac_str(u % (SCALE as nat), 6)
    }
}

/// Zero-padded rendering of `m` in exactly `w` decimal digits.
pub open spec fn pad_digits(m: nat, w: nat) -> Seq<char>
    decreases w,
{
    if w == 0 {
        Seq::empty()
    } else {
        pad_digits(m / 10, (w - 1) as nat) + seq![digit_char(m % 10)]
    }
}

/// The fractional digits of `m`, at width `w`, with trailing zeros dropped.
pub open spec fn frac_str(m: nat, w: nat) -> Seq<char>
    decreases w,
{
    if w == 0 {
        Seq::empty()
    } else if m % 10 == 0 {
        frac_str(m / 10, (w - 1) as nat)
    } else {
        pad_digits(m, w)
    }
}

/// Render `m` zero-padded to exactly `w` digits.
fn pad_text(m: u64, w: u64) -> (r: String)
    requires
        w <= 6,
    ensures
        r@ == pad_digits(m as nat, w as nat),
    decreases w,
{
    if w == 0 {
        String::new()
    } else {
        let mut r = pad_text(m / 10, w - 1);
        r.append(crate::text::digit_text(m % 10));
        r
    }
}

/// Render the fractional digits of `m` at width `w`, trailing zeros dropped.
fn frac_text(m: u64, w: u64) -> (r: String)
    requires
        w <= 6,
    ensures
        r@ == frac_str(m as nat, w as nat),
    decreases w,
{
    if w == 0 {
        String::new()
    } else if m % 10 == 0 {
        frac_text(m / 10, w - 1)
    } else {
        pad_text(m, w)
    }
}

} // verus!
