//! Runtime numbers, modeled as fixed-point decimals.
//!
//! A `Number` stores an `i64` count of millionths, so every value has six
//! decimal digits of fraction. All arithmetic is exact integer arithmetic
//! with truncation toward zero where a quotient is inexact, and every
//! operation reports overflow explicitly instead of wrapping.

use vstd::prelude::*;

verus! {

use vstd::string::StringExecFns;

/// Number of raw units in 1: ten to the `FRACTION_DIGITS`.
pub const FRACTION_UNIT: i64 = 1_000_000;

/// How many decimal digits of fraction a `Number` carries.
pub const FRACTION_DIGITS: u64 = 6;

/// Absolute value over mathematical integers.
pub open spec fn iabs(a: int) -> int {
    if a < 0 {
        -a
    } else {
        a
    }
}

/// Division truncating toward zero, as machine division does.
pub open spec fn tdiv(a: int, b: int) -> int {
    if (a < 0) != (b < 0) {
        -(iabs(a) / iabs(b))
    } else {
        iabs(a) / iabs(b)
    }
}

/// Whether a mathematical integer fits in an `i64`.
pub open spec fn in_i64(v: int) -> bool {
    i64::MIN <= v <= i64::MAX
}

/// The raw value of the exact product of two numbers given by raw values.
pub open spec fn mul_raw(a: int, b: int) -> int {
    tdiv(a * b, FRACTION_UNIT as int)
}

/// The raw value of the quotient of two numbers given by raw values.
pub open spec fn div_raw(a: int, b: int) -> int {
    tdiv(a * FRACTION_UNIT, b)
}

/// A fixed-point decimal: `raw` millionths.
#[derive(Clone, Copy, Debug, PartialEq, Eq, Structural)]
pub struct Number {
    pub raw: i64,
}

/// Magnitude of an `i64` as a `u128`, matching `iabs` on the mathematical side.
fn abs_u128(a: i64) -> (r: u128)
    ensures
        r as int == iabs(a as int),
{
    if a < 0 {
        (-(a as i128)) as u128
    } else {
        a as u128
    }
}

/// Turn a non-negative magnitude back into an `i64` with the given sign,
/// if it fits.
fn apply_sign(mag: u128, neg: bool) -> (r: Option<i64>)
    ensures
        ({
            let v: int = if neg {
                -(mag as int)
            } else {
                mag as int
            };
            match r {
                Some(x) => in_i64(v) && x as int == v,
                None => !in_i64(v),
            }
        }),
{
    if neg {
        if mag > 9223372036854775808u128 {
            None
        } else if mag == 9223372036854775808u128 {
            Some(i64::MIN)
        } else {
            Some(-(mag as i64))
        }
    } else {
        if mag > i64::MAX as u128 {
            None
        } else {
            Some(mag as i64)
        }
    }
}

impl Number {
    /// The number whose raw count of millionths is `raw`.
    pub fn from_raw(raw: i64) -> (r: Number)
        ensures
            r.raw == raw,
    {
        Number { raw }
    }

    /// The number with integer value `v`, when `v` millions fits an `i64`.
    pub fn from_i64(v: i64) -> (r: Option<Number>)
        ensures
            match r {
                Some(n) => in_i64(v * FRACTION_UNIT) && n.raw == v * FRACTION_UNIT,
                None => !in_i64(v * FRACTION_UNIT),
            },
    {
        proof {
            assert(-0x8000_0000_0000_0000 * 1_000_000 <= v as int * 1_000_000 <= 0x8000_0000_0000_0000 * 1_000_000)
                by (nonlinear_arith)
                requires
                    -0x8000_0000_0000_0000 <= v as int <= 0x8000_0000_0000_0000,
            ;
        }
        let wide: i128 = (v as i128) * (FRACTION_UNIT as i128);
        if wide < i64::MIN as i128 || wide > i64::MAX as i128 {
            None
        } else {
            Some(Number { raw: wide as i64 })
        }
    }

    /// Exact negation; fails only on the one raw value without a negation.
    pub fn checked_neg(self) -> (r: Option<Number>)
        ensures
            match r {
                Some(n) => in_i64(-self.raw) && n.raw == -self.raw,
                None => !in_i64(-self.raw),
            },
    {
        if self.raw == i64::MIN {
            None
        } else {
            Some(Number { raw: -self.raw })
        }
    }

    /// Exact sum, or `None` when it leaves the representable range.
    pub fn checked_add(self, rhs: Number) -> (r: Option<Number>)
        ensures
            match r {
                Some(n) => in_i64(self.raw + rhs.raw) && n.raw == self.raw + rhs.raw,
                None => !in_i64(self.raw + rhs.raw),
            },
    {
        let s: i128 = self.raw as i128 + rhs.raw as i128;
        if s < i64::MIN as i128 || s > i64::MAX as i128 {
            None
        } else {
            Some(Number { raw: s as i64 })
        }
    }

    /// Exact difference, or `None` when it leaves the representable range.
    pub fn checked_sub(self, rhs: Number) -> (r: Option<Number>)
        ensures
            match r {
                Some(n) => in_i64(self.raw - rhs.raw) && n.raw == self.raw - rhs.raw,
                None => !in_i64(self.raw - rhs.raw),
            },
    {
        let s: i128 = self.raw as i128 - rhs.raw as i128;
        if s < i64::MIN as i128 || s > i64::MAX as i128 {
            None
        } else {
            Some(Number { raw: s as i64 })
        }
    }

    /// Product, truncated toward zero to six fraction digits; `None` on
    /// overflow.
    pub fn checked_mul(self, rhs: Number) -> (r: Option<Number>)
        ensures
            match r {
                Some(n) => in_i64(mul_raw(self.raw as int, rhs.raw as int)) && n.raw as int
                    == mul_raw(self.raw as int, rhs.raw as int),
                None => !in_i64(mul_raw(self.raw as int, rhs.raw as int)),
            },
    {
        let neg = (self.raw < 0) != (rhs.raw < 0);
        let ma = abs_u128(self.raw);
        let mb = abs_u128(rhs.raw);
        proof {
            let ga: int = self.raw as int;
            let gb: int = rhs.raw as int;
            assert(ma <= 0x8000_0000_0000_0000u128);
            assert(mb <= 0x8000_0000_0000_0000u128);
            assert(ma as int * mb as int <= 0x8000_0000_0000_0000 * 0x8000_0000_0000_0000)
                by (nonlinear_arith)
                requires
                    ma as int <= 0x8000_0000_0000_0000,
                    mb as int <= 0x8000_0000_0000_0000,
                    0 <= ma as int,
                    0 <= mb as int,
            ;
            assert(iabs(ga * gb) == iabs(ga) * iabs(gb)) by (nonlinear_arith);
            assert((ga < 0 && gb > 0) ==> ga * gb < 0) by (nonlinear_arith);
            assert((ga > 0 && gb < 0) ==> ga * gb < 0) by (nonlinear_arith);
            assert((ga >= 0 && gb >= 0) ==> ga * gb >= 0) by (nonlinear_arith);
            assert((ga <= 0 && gb <= 0) ==> ga * gb >= 0) by (nonlinear_arith);
            assert((ga * gb != 0) ==> (ga != 0 && gb != 0)) by (nonlinear_arith);
        }
        let q: u128 = (ma * mb) / (FRACTION_UNIT as u128);
        let neg_eff = neg && q > 0;
        proof {
            let ga: int = self.raw as int;
            let gb: int = rhs.raw as int;
            assert(q as int == iabs(ga * gb) / (FRACTION_UNIT as int));
            if q == 0 {
                assert(mul_raw(ga, gb) == 0);
            }
            assert(mul_raw(ga, gb) == if neg_eff {
                -(q as int)
            } else {
                q as int
            });
        }
        match apply_sign(q, neg_eff) {
            Some(raw) => Some(Number { raw }),
            None => None,
        }
    }

    /// Quotient, truncated toward zero to six fraction digits; `None` on
    /// overflow. Callers must rule out a zero divisor.
    pub fn checked_div(self, rhs: Number) -> (r: Option<Number>)
        requires
            rhs.raw != 0,
        ensures
            match r {
                Some(n) => in_i64(div_raw(self.raw as int, rhs.raw as int)) && n.raw as int
                    == div_raw(self.raw as int, rhs.raw as int),
                None => !in_i64(div_raw(self.raw as int, rhs.raw as int)),
            },
    {
        let neg = (self.raw < 0) != (rhs.raw < 0);
        let ma = abs_u128(self.raw);
        let mb = abs_u128(rhs.raw);
        proof {
            let ga: int = self.raw as int;
            let gb: int = rhs.raw as int;
            let gu: int = FRACTION_UNIT as int;
            assert(ma <= 0x8000_0000_0000_0000u128);
            assert(ma as int * gu <= 0x8000_0000_0000_0000 * 1_000_000) by (nonlinear_arith)
                requires
                    ma as int <= 0x8000_0000_0000_0000,
                    0 <= ma as int,
                    gu == 1_000_000,
            ;
            assert(iabs(ga * gu) == iabs(ga) * gu) by (nonlinear_arith)
                requires
                    gu > 0,
            ;
            assert((ga < 0) ==> ga * gu < 0) by (nonlinear_arith)
                requires
                    gu > 0,
            ;
            assert((ga >= 0) ==> ga * gu >= 0) by (nonlinear_arith)
                requires
                    gu > 0,
            ;
        }
        let q: u128 = (ma * (FRACTION_UNIT as u128)) / mb;
        let neg_eff = neg && q > 0;
        proof {
            let ga: int = self.raw as int;
            let gb: int = rhs.raw as int;
            assert(q as int == iabs(ga * FRACTION_UNIT) / iabs(gb));
            if q == 0 {
                assert(div_raw(ga, gb) == 0);
            }
            assert(div_raw(ga, gb) == if neg_eff {
                -(q as int)
            } else {
                q as int
            });
        }
        match apply_sign(q, neg_eff) {
            Some(raw) => Some(Number { raw }),
            None => None,
        }
    }

    /// Order on values, which is the order on raw counts.
    pub fn lt(self, rhs: Number) -> (r: bool)
        ensures
            r == (self.raw < rhs.raw),
    {
        self.raw < rhs.raw
    }

    pub fn le(self, rhs: Number) -> (r: bool)
        ensures
            r == (self.raw <= rhs.raw),
    {
        self.raw <= rhs.raw
    }

    pub fn gt(self, rhs: Number) -> (r: bool)
        ensures
            r == (self.raw > rhs.raw),
    {
        self.raw > rhs.raw
    }

    pub fn ge(self, rhs: Number) -> (r: bool)
        ensures
            r == (self.raw >= rhs.raw),
    {
        self.raw >= rhs.raw
    }

    /// The display form: optional minus sign, the whole part in decimal, and
    /// the fraction with trailing zeros removed (omitted entirely when zero).
    pub fn to_text(self) -> (r: String)
        ensures
            r@ == number_text(self.raw as int),
    {
        let mut out = String::new();
        if self.raw < 0 {
            out.append("-");
        }
        let mag: u64 = if self.raw < 0 {
            (-(self.raw as i128)) as u64
        } else {
            self.raw as u64
        };
        let whole: u64 = mag / (FRACTION_UNIT as u64);
        let frac: u64 = mag % (FRACTION_UNIT as u64);
        push_dec(whole, &mut out);
        if frac != 0 {
            out.append(".");
            push_stripped(frac, FRACTION_DIGITS, &mut out);
        }
        proof {
            assert(out@ =~= number_text(self.raw as int));
        }
        out
    }
}

/// The character for one decimal digit.
pub open spec fn dec_digit(d: int) -> char {
    if d == 0 {
        '0'
    } else if d == 1 {
        '1'
    } else if d == 2 {
        '2'
    } else if d == 3 {
        '3'
    } else if d == 4 {
        '4'
    } else if d == 5 {
        '5'
    } else if d == 6 {
        '6'
    } else if d == 7 {
        '7'
    } else if d == 8 {
        '8'
    } else {
        '9'
    }
}

/// The usual decimal rendering of a natural number, without leading zeros.
pub open spec fn dec_rep(n: nat) -> Seq<char>
    decreases n,
{
    if n < 10 {
        seq![dec_digit(n as int)]
    } else {
        dec_rep(n / 10).push(dec_digit((n % 10) as int))
    }
}

/// `f` rendered as a field of exactly `d` decimal digits, zero-padded.
pub open spec fn padded_rep(f: nat, d: nat) -> Seq<char>
    decreases d,
{
    if d == 0 {
        Seq::empty()
    } else {
        padded_rep(f / 10, (d - 1) as nat).push(dec_digit((f % 10) as int))
    }
}

/// `padded_rep(f, d)` with its trailing zeros removed.
pub open spec fn stripped_rep(f: nat, d: nat) -> Seq<char>
    decreases d,
{
    if d == 0 {
        Seq::empty()
    } else if f % 10 == 0 {
        stripped_rep(f / 10, (d - 1) as nat)
    } else {
        padded_rep(f, d)
    }
}

/// The display form of the number with the given raw count of millionths.
pub open spec fn number_text(raw: int) -> Seq<char> {
    let sign: Seq<char> = if raw < 0 {
        "-"@
    } else {
        Seq::empty()
    };
    let whole: nat = (iabs(raw) / (FRACTION_UNIT as int)) as nat;
    let frac: nat = (iabs(raw) % (FRACTION_UNIT as int)) as nat;
    if frac == 0 {
        sign + dec_rep(whole)
    } else {
        sign + dec_rep(whole) + "."@ + stripped_rep(frac, FRACTION_DIGITS as nat)
    }
}

/// One decimal digit as a string slice.
fn digit_str(d: u64) -> (r: &'static str)
    requires
        d < 10,
    ensures
        r@ == seq![dec_digit(d as int)],
{
    proof {
        reveal_strlit("0");
        reveal_strlit("1");
        reveal_strlit("2");
        reveal_strlit("3");
        reveal_strlit("4");
        reveal_strlit("5");
        reveal_strlit("6");
        reveal_strlit("7");
        reveal_strlit("8");
        reveal_strlit("9");
    }
    let r = if d == 0 {
        "0"
    } else if d == 1 {
        "1"
    } else if d == 2 {
        "2"
    } else if d == 3 {
        "3"
    } else if d == 4 {
        "4"
    } else if d == 5 {
        "5"
    } else if d == 6 {
        "6"
    } else if d == 7 {
        "7"
    } else if d == 8 {
        "8"
    } else {
        "9"
    };
    proof {
        assert(r@ =~= seq![dec_digit(d as int)]);
    }
    r
}

/// Append the decimal rendering of `n` to `out`.
pub fn push_dec(n: u64, out: &mut String)
    ensures
        final(out)@ == old(out)@ + dec_rep(n as nat),
    decreases n,
{
    if n < 10 {
        out.append(digit_str(n));
        proof {
            assert(out@ =~= old(out)@ + dec_rep(n as nat));
        }
    } else {
        push_dec(n / 10, out);
        out.append(digit_str(n % 10));
        proof {
            assert(out@ =~= old(out)@ + dec_rep(n as nat));
        }
    }
}

/// Append the `d`-digit field for `f` with trailing zeros removed.
fn push_padded(f: u64, d: u64, out: &mut String)
    ensures
        final(out)@ == old(out)@ + padded_rep(f as nat, d as nat),
    decreases d,
{
    if d > 0 {
        push_padded(f / 10, d - 1, out);
        out.append(digit_str(f % 10));
    }
    proof {
        assert(out@ =~= old(out)@ + padded_rep(f as nat, d as nat));
    }
}

fn push_stripped(f: u64, d: u64, out: &mut String)
    ensures
        final(out)@ == old(out)@ + stripped_rep(f as nat, d as nat),
    decreases d,
{
    if d == 0 {
        proof {
            assert(out@ =~= old(out)@ + stripped_rep(f as nat, d as nat));
        }
    } else if f % 10 == 0 {
        push_stripped(f / 10, d - 1, out);
    } else {
        push_padded(f, d, out);
    }
}

} // verus!
