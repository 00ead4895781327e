//! Denom-tagged decimal amounts, and the parsing of composite amount
//! strings ("10.5uusd,3ukrw") through the chain client library.

use vstd::prelude::*;
use crate::dec::{
    from_mantissa_scale, units_from_parts, Dec, DEC_MAX_UNITS, MANTISSA_BOUND,
};

verus! {

/// The mathematical content of a [`Coin`]: denom characters and scaled units.
pub struct CoinV {
    pub denom: Seq<char>,
    pub units: int,
}

/// An amount of one denom.
#[derive(Clone, Debug)]
pub struct Coin {
    /// The coin type, in its `uXXX` chain format.
    pub denom: String,
    pub amount: Dec,
}

impl View for Coin {
    type V = CoinV;

    open spec fn view(&self) -> CoinV {
        CoinV { denom: self.denom@, units: self.amount@ }
    }
}

impl DeepView for Coin {
    type V = CoinV;

    open spec fn deep_view(&self) -> CoinV {
        self@
    }
}

/// The views of a sequence of coins.
pub open spec fn coins_view(s: Seq<Coin>) -> Seq<CoinV> {
    s.map_values(|c: Coin| c@)
}

/// What the chain client library's coin-list parser returns for a given
/// string: `None` on a malformed string, otherwise one (denom, mantissa,
/// scale) triple per coin.
pub uninterp spec fn parsed_coins_of(s: Seq<char>) -> Option<Seq<(Seq<char>, int, int)>>;

/// What the decimal library's string parser returns for a given string:
/// `None` on a malformed literal, otherwise (mantissa, scale).
pub uninterp spec fn decimal_of(s: Seq<char>) -> Option<(int, int)>;

/// Exec triples carry the same data as their spec counterparts.
pub open spec fn raw_matches(v: Seq<(String, i128, u32)>, m: Seq<(Seq<char>, int, int)>) -> bool {
    &&& v.len() == m.len()
    &&& forall|i: int|
        0 <= i < v.len() ==> v[i].0@ == m[i].0 && v[i].1 == m[i].1 && v[i].2 == m[i].2
}

/// Relies on `terra_rust_api::core_types::Coin::parse_coins`: it parses a
/// comma-separated list of `<decimal><denom>` pairs, failing whole if any
/// pair is malformed, and its outcome depends on the string alone.  The
/// accepted grammar carries no sign, so mantissas are non-negative; the
/// decimal representation is a 96-bit mantissa with a scale of at most 28.
#[verifier::external_body]
fn parse_coins_raw(s: &str) -> (r: Option<Vec<(String, i128, u32)>>)
    ensures
        match r {
            Some(v) => {
                &&& parsed_coins_of(s@) is Some
                &&& raw_matches(v@, parsed_coins_of(s@).unwrap())
                &&& forall|i: int|
                    0 <= i < parsed_coins_of(s@).unwrap().len() ==> {
                        &&& 0 <= #[trigger] parsed_coins_of(s@).unwrap()[i].1 < MANTISSA_BOUND
                        &&& 0 <= parsed_coins_of(s@).unwrap()[i].2 <= 28
                    }
            },
            None => parsed_coins_of(s@) is None,
        },
{
    match terra_rust_api::core_types::Coin::parse_coins(s) {
        Ok(cs) => Some(
            cs.into_iter().map(|c| (c.denom, c.amount.mantissa(), c.amount.scale())).collect(),
        ),
        Err(_) => None,
    }
}

/// Relies on `rust_decimal::Decimal::from_str`: it parses one decimal
/// literal, its outcome depends on the string alone, and the parsed value
/// is a 96-bit mantissa with a scale of at most 28.
#[verifier::external_body]
fn parse_decimal_raw(s: &str) -> (r: Option<(i128, u32)>)
    ensures
        match r {
            Some(p) => {
                &&& decimal_of(s@) == Some((p.0 as int, p.1 as int))
                &&& -MANTISSA_BOUND < p.0 < MANTISSA_BOUND
                &&& p.1 <= 28
            },
            None => decimal_of(s@) is None,
        },
{
    match <rust_decimal::Decimal as core::str::FromStr>::from_str(s) {
        Ok(d) => Some((d.mantissa(), d.scale())),
        Err(_) => None,
    }
}

/// Whether a parsed decimal fits the fixed-point representation.
pub open spec fn part_fits(m: int, sc: int) -> bool {
    &&& 0 <= sc <= 28
    &&& -(DEC_MAX_UNITS as int) <= units_from_parts(m, sc as nat) <= DEC_MAX_UNITS as int
}

/// Whether the string parses as a coin list every entry of which fits
/// the fixed-point representation.
pub open spec fn rates_ok(s: Seq<char>) -> bool {
    &&& parsed_coins_of(s) is Some
    &&& forall|i: int|
        0 <= i < parsed_coins_of(s).unwrap().len() ==> part_fits(
            #[trigger] parsed_coins_of(s).unwrap()[i].1,
            parsed_coins_of(s).unwrap()[i].2,
        )
}

/// The coin values a well-formed rate string denotes.
pub open spec fn rates_of(s: Seq<char>) -> Seq<CoinV> {
    parsed_coins_of(s).unwrap().map_values(
        |t: (Seq<char>, int, int)| CoinV { denom: t.0, units: units_from_parts(t.1, t.2 as nat) },
    )
}

/// Parse a comma-separated coin list; `None` when the string is
/// malformed or any amount is out of the accepted range.
pub fn parse_rates(s: &str) -> (r: Option<Vec<Coin>>)
    ensures
        match r {
            Some(v) => {
                &&& rates_ok(s@)
                &&& coins_view(v@) == rates_of(s@)
                &&& forall|i: int| 0 <= i < v@.len() ==> (#[trigger] v@[i]).amount.bounded()
            },
            None => !rates_ok(s@),
        },
{
    let raw = match parse_coins_raw(s) {
        Some(raw) => raw,
        None => {
            return None;
        },
    };
    let ghost spec_raw = parsed_coins_of(s@).unwrap();
    let mut out: Vec<Coin> = Vec::new();
    let n = raw.len();
    let mut i: usize = 0;
    while i < n
        invariant
            0 <= i <= n == raw@.len(),
            parsed_coins_of(s@) == Some(spec_raw),
            raw_matches(raw@, spec_raw),
            forall|j: int|
                0 <= j < spec_raw.len() ==> {
                    &&& 0 <= #[trigger] spec_raw[j].1 < MANTISSA_BOUND
                    &&& 0 <= spec_raw[j].2 <= 28
                },
            out@.len() == i,
            forall|j: int| 0 <= j < i ==> part_fits(#[trigger] spec_raw[j].1, spec_raw[j].2),
            forall|j: int|
                0 <= j < i ==> (#[trigger] out@[j])@ == (CoinV {
                    denom: spec_raw[j].0,
                    units: units_from_parts(spec_raw[j].1, spec_raw[j].2 as nat),
                }),
            forall|j: int| 0 <= j < i ==> (#[trigger] out@[j]).amount.bounded(),
        decreases n - i,
    {
        let denom = raw[i].0.clone();
        let m = raw[i].1;
        let sc = raw[i].2;
        match from_mantissa_scale(m, sc) {
            Some(d) => {
                out.push(Coin { denom, amount: d });
            },
            None => {
                proof {
                    assert(!part_fits(
                        parsed_coins_of(s@).unwrap()[i as int].1,
                        parsed_coins_of(s@).unwrap()[i as int].2,
                    ));
                    assert(!rates_ok(s@));
                }
                return None;
            },
        }
        i = i + 1;
    }
    proof {
        assert(coins_view(out@) =~= rates_of(s@));
    }
    Some(out)
}

/// Whether the string parses as one decimal that fits the fixed-point
/// representation.
pub open spec fn decimal_ok(s: Seq<char>) -> bool {
    &&& decimal_of(s) is Some
    &&& part_fits(decimal_of(s).unwrap().0, decimal_of(s).unwrap().1)
}

/// The units a well-formed decimal string denotes.
pub open spec fn decimal_units(s: Seq<char>) -> int {
    units_from_parts(decimal_of(s).unwrap().0, decimal_of(s).unwrap().1 as nat)
}

/// Parse one decimal literal; `None` when malformed or out of range.
pub fn parse_decimal(s: &str) -> (r: Option<Dec>)
    ensures
        match r {
            Some(d) => decimal_ok(s@) && d@ == decimal_units(s@) && d.bounded(),
            None => !decimal_ok(s@),
        },
{
    match parse_decimal_raw(s) {
        Some((m, sc)) => from_mantissa_scale(m, sc),
        None => None,
    }
}

} // verus!
