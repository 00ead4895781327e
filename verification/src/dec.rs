//! Fixed-point decimal values.
//!
//! All price arithmetic in this crate is exact integer arithmetic on a
//! fixed-point representation: a `Dec` carries `units`, the value scaled
//! by `10^DEC_SCALE`.  Comparisons that gate drift and abstain decisions
//! are therefore exact; no floating point is involved anywhere.

use vstd::prelude::*;

verus! {

/// Number of fractional decimal digits a `Dec` carries.
pub const DEC_SCALE: u32 = 9;

/// `10^DEC_SCALE`: the number of units in the value one.
pub const DEC_ONE_UNITS: i128 = 1_000_000_000;

/// Bound on the magnitude, in units, of any decimal accepted from
/// outside text (a price of at most one billion in absolute value).
/// Keeping every accepted amount under this bound is what makes the
/// aggregation arithmetic provably free of overflow.
pub const DEC_MAX_UNITS: i128 = 1_000_000_000_000_000_000;

/// Bound on the magnitude of a mantissa handed in by the decimal
/// parser: mantissas are 96-bit integers, so their magnitude is
/// strictly below `2^96`.
pub const MANTISSA_BOUND: i128 = 0x1_0000_0000_0000_0000_0000_0000;

/// A fixed-point decimal: the represented value is `units / 10^DEC_SCALE`.
#[derive(Clone, Copy, Debug, PartialEq, Eq, Structural)]
pub struct Dec {
    pub units: i128,
}

impl View for Dec {
    type V = int;

    open spec fn view(&self) -> int {
        self.units as int
    }
}

impl Dec {
    /// Build a decimal directly from scaled units.
    pub fn from_units(units: i128) -> (r: Dec)
        ensures
            r@ == units as int,
    {
        Dec { units }
    }

    /// Whether the value is within the magnitude bound accepted from
    /// outside text.
    pub open spec fn bounded(self) -> bool {
        -(DEC_MAX_UNITS as int) <= self.units as int <= DEC_MAX_UNITS as int
    }
}

/// `10^e`.
pub open spec fn pow10(e: nat) -> int
    decreases e,
{
    if e == 0 {
        1
    } else {
        10 * pow10((e - 1) as nat)
    }
}

pub proof fn lemma_pow10_pos(e: nat)
    ensures
        pow10(e) >= 1,
    decreases e,
{
    if e > 0 {
        lemma_pow10_pos((e - 1) as nat);
    }
}

pub proof fn lemma_pow10_mono(a: nat, b: nat)
    requires
        a <= b,
    ensures
        pow10(a) <= pow10(b),
    decreases b,
{
    if a < b {
        lemma_pow10_mono(a, (b - 1) as nat);
        lemma_pow10_pos((b - 1) as nat);
    }
}

/// Integer division rounding toward zero (the behaviour of `/` on
/// machine integers), defined for positive divisors.
pub open spec fn div_toward_zero(a: int, b: int) -> int {
    if a >= 0 {
        a / b
    } else {
        -((-a) / b)
    }
}

/// Exact value, in `Dec` units, of a decimal given as mantissa and
/// scale; digits beyond `DEC_SCALE` fractional places are discarded
/// toward zero.
pub open spec fn units_from_parts(m: int, scale: nat) -> int {
    if scale <= DEC_SCALE {
        m * pow10((DEC_SCALE - scale) as nat)
    } else {
        div_toward_zero(m, pow10((scale - DEC_SCALE) as nat))
    }
}

/// Compute `10^e` for small exponents.
fn pow10_i128(e: u32) -> (r: i128)
    requires
        e <= 28,
    ensures
        r == pow10(e as nat),
        r >= 1,
{
    proof {
        reveal_with_fuel(pow10, 30);
        assert(pow10(28) == 10_000_000_000_000_000_000_000_000_000);
    }
    let mut r: i128 = 1;
    let mut i: u32 = 0;
    while i < e
        invariant
            i <= e <= 28,
            r == pow10(i as nat),
        decreases e - i,
    {
        proof {
            reveal_with_fuel(pow10, 30);
            assert(pow10(28) == 10_000_000_000_000_000_000_000_000_000);
            lemma_pow10_mono((i + 1) as nat, 28);
            lemma_pow10_pos(i as nat);
            assert(pow10((i + 1) as nat) == 10 * pow10(i as nat));
        }
        r = r * 10;
        i = i + 1;
    }
    proof {
        lemma_pow10_pos(e as nat);
    }
    r
}

/// Convert a parsed decimal, given as mantissa and scale, to a `Dec`,
/// refusing values whose magnitude exceeds `DEC_MAX_UNITS`.
pub fn from_mantissa_scale(m: i128, scale: u32) -> (r: Option<Dec>)
    requires
        -MANTISSA_BOUND < m < MANTISSA_BOUND,
    ensures
        match r {
            Some(d) => {
                &&& scale <= 28
                &&& d@ == units_from_parts(m as int, scale as nat)
                &&& d.bounded()
            },
            None => scale > 28 || !(-(DEC_MAX_UNITS as int) <= units_from_parts(
                m as int,
                scale as nat,
            ) <= DEC_MAX_UNITS as int),
        },
{
    if scale > 28 {
        return None;
    }
    if scale <= DEC_SCALE {
        let p = pow10_i128(DEC_SCALE - scale);
        proof {
            lemma_pow10_mono((DEC_SCALE - scale) as nat, 9);
            reveal_with_fuel(pow10, 10);
            assert(pow10(9) == 1_000_000_000);
        }
        let q = DEC_MAX_UNITS / p;
        if m > q || m < -q {
            proof {
                let pi = pow10((DEC_SCALE - scale) as nat);
                let qi = DEC_MAX_UNITS as int / pi;
                if m > qi {
                    assert(m * pi > qi * pi) by (nonlinear_arith)
                        requires
                            m > qi,
                            pi >= 1,
                    ;
                    assert(qi * pi <= DEC_MAX_UNITS < (qi + 1) * pi) by (nonlinear_arith)
                        requires
                            pi >= 1,
                            qi == DEC_MAX_UNITS as int / pi,
                            DEC_MAX_UNITS as int % pi >= 0,
                            DEC_MAX_UNITS as int % pi < pi,
                    ;
                    assert(m * pi >= (qi + 1) * pi) by (nonlinear_arith)
                        requires
                            m > qi,
                            pi >= 1,
                    ;
                } else {
                    assert(qi * pi <= DEC_MAX_UNITS < (qi + 1) * pi) by (nonlinear_arith)
                        requires
                            pi >= 1,
                            qi == DEC_MAX_UNITS as int / pi,
                            DEC_MAX_UNITS as int % pi >= 0,
                            DEC_MAX_UNITS as int % pi < pi,
                    ;
                    assert(m * pi <= -((qi + 1) * pi)) by (nonlinear_arith)
                        requires
                            m < -qi,
                            pi >= 1,
                    ;
                }
            }
            None
        } else {
            proof {
                let pi = pow10((DEC_SCALE - scale) as nat);
                let qi = DEC_MAX_UNITS as int / pi;
                assert(qi * pi <= DEC_MAX_UNITS) by (nonlinear_arith)
                    requires
                        pi >= 1,
                        qi == DEC_MAX_UNITS as int / pi,
                        DEC_MAX_UNITS as int % pi >= 0,
                ;
                assert(-qi <= m <= qi ==> -(qi * pi) <= m * pi <= qi * pi) by (nonlinear_arith)
                    requires
                        pi >= 1,
                ;
            }
            Some(Dec { units: m * p })
        }
    } else {
        let p = pow10_i128(scale - DEC_SCALE);
        let q: i128 = if m >= 0 {
            m / p
        } else {
            -((-m) / p)
        };
        proof {
            let pi = pow10((scale - DEC_SCALE) as nat);
            if m >= 0 {
                assert(0 <= m as int / pi <= m) by (nonlinear_arith)
                    requires
                        pi >= 1,
                        m >= 0,
                ;
            } else {
                assert(0 <= (-m) as int / pi <= -m) by (nonlinear_arith)
                    requires
                        pi >= 1,
                        m < 0,
                ;
            }
        }
        if q > DEC_MAX_UNITS || q < -DEC_MAX_UNITS {
            None
        } else {
            Some(Dec { units: q })
        }
    }
}

} // verus!
