//! The price-oracle aggregation engine.
//!
//! A windowed accumulator keyed by vote period: it consumes observed
//! transactions, extracts aggregate exchange-rate votes, and on each
//! window boundary computes consensus prices per denom, emits drift and
//! abstain events, reports validators that missed a vote, and prunes
//! stale validator tracking state.

use vstd::prelude::*;
use crate::coin::{coins_view, parse_rates, rates_of, rates_ok, Coin, CoinV};
use crate::dec::{Dec, DEC_MAX_UNITS, DEC_ONE_UNITS};
use crate::messages::{
    MessagePriceAbstain, MessagePriceDrift, MessageTX, MessageValidatorEvent,
    MessageValidatorStakedTotal, ValidatorEventType,
};
use crate::smap::{lemma_vfind_is_first, lemma_vput_get, vfind, vget, vhas, vput, vunique, SMap};
use crate::strutil::{spec_u64_digits, str_eq, u64_to_dec_str};
use crate::types::TxMessage;

verus! {

/// Amounts at or below this many units (0.001) are abstentions.
pub const SIGNIFICANCE_THRESHOLD_UNITS: i128 = 1_000_000;

/// Largest stake weight a single validator may carry.
pub const WEIGHT_MAX: u64 = 1_000_000_000_000_000;

/// Largest number of validators tracked in one window.
pub const MAX_VALIDATORS: usize = 1000;

/// Largest number of coins accepted in one vote.
pub const MAX_VOTE_COINS: usize = 100;

/// Largest reward band accepted, in units (the value ten).
pub const REWARD_BAND_MAX_UNITS: i128 = 10_000_000_000;

/// A validator not seen for this many blocks is dropped from tracking.
pub const STALE_HORIZON: u64 = 100;

/// The significance threshold as a mathematical integer.
pub open spec fn thresh() -> int {
    SIGNIFICANCE_THRESHOLD_UNITS as int
}

/// Absolute value.
pub open spec fn iabs(a: int) -> int {
    if a >= 0 {
        a
    } else {
        -a
    }
}

/// The transaction envelope type the engine scans.
pub open spec fn cosmos_tx_tag() -> Seq<char> {
    "/cosmos.tx.v1beta1.Tx"@
}

/// The discriminator of an aggregate exchange-rate vote message.
pub open spec fn oracle_vote_tag() -> Seq<char> {
    "/terra.oracle.v1beta1.MsgAggregateExchangeRateVote"@
}

// ------------------------------------------------------------------
// Per-denom accumulation
// ------------------------------------------------------------------

/// Per-denom accumulator: contributing validators, their total weight,
/// the raw amount sum, and the stake-weighted amount sum.
pub struct DenomAcc {
    pub count: int,
    pub weight: int,
    pub sum: int,
    pub wsum: int,
}

pub open spec fn acc_zero() -> DenomAcc {
    DenomAcc { count: 0, weight: 0, sum: 0, wsum: 0 }
}

/// Fold one (amount, weight) contribution into an accumulator.
pub open spec fn acc_add(a: DenomAcc, p: (int, int)) -> DenomAcc {
    DenomAcc {
        count: a.count + 1,
        weight: a.weight + p.1,
        sum: a.sum + p.0,
        wsum: a.wsum + p.0 * p.1,
    }
}

/// Fold a contribution list.
pub open spec fn acc_of(c: Seq<(int, int)>) -> DenomAcc
    decreases c.len(),
{
    if c.len() == 0 {
        acc_zero()
    } else {
        acc_add(acc_of(c.drop_last()), c.last())
    }
}

/// The (amount, weight) contributions of one validator's coins to denom
/// `d`: coins of that denom whose amount exceeds the threshold.
pub open spec fn coin_contribs(coins: Seq<CoinV>, w: u64, d: Seq<char>) -> Seq<(int, int)>
    decreases coins.len(),
{
    if coins.len() == 0 {
        Seq::empty()
    } else {
        coin_contribs(coins.drop_last(), w, d) + if coins.last().denom == d && coins.last().units
            > thresh() {
            seq![(coins.last().units, w as int)]
        } else {
            Seq::empty()
        }
    }
}

/// The contributions of every validator with a recorded weight.
pub open spec fn vote_contribs(
    votes: Seq<(Seq<char>, Seq<CoinV>)>,
    weights: Seq<(Seq<char>, u64)>,
    d: Seq<char>,
) -> Seq<(int, int)>
    decreases votes.len(),
{
    if votes.len() == 0 {
        Seq::empty()
    } else {
        vote_contribs(votes.drop_last(), weights, d) + match vget(weights, votes.last().0) {
            Some(w) => coin_contribs(votes.last().1, w, d),
            None => Seq::empty(),
        }
    }
}

/// The accumulator a full scan produces for denom `d`.
pub open spec fn votes_acc(
    votes: Seq<(Seq<char>, Seq<CoinV>)>,
    weights: Seq<(Seq<char>, u64)>,
    d: Seq<char>,
) -> DenomAcc {
    acc_of(vote_contribs(votes, weights, d))
}

// ------------------------------------------------------------------
// Denom order
// ------------------------------------------------------------------

/// The denoms of one validator's contributing coins, in coin order.
pub open spec fn coin_denoms(coins: Seq<CoinV>) -> Seq<Seq<char>>
    decreases coins.len(),
{
    if coins.len() == 0 {
        Seq::empty()
    } else {
        coin_denoms(coins.drop_last()) + if coins.last().units > thresh() {
            seq![coins.last().denom]
        } else {
            Seq::empty()
        }
    }
}

/// The contributing denoms over every weighted validator, with repeats.
pub open spec fn all_contrib_denoms(
    votes: Seq<(Seq<char>, Seq<CoinV>)>,
    weights: Seq<(Seq<char>, u64)>,
) -> Seq<Seq<char>>
    decreases votes.len(),
{
    if votes.len() == 0 {
        Seq::empty()
    } else {
        all_contrib_denoms(votes.drop_last(), weights) + match vget(weights, votes.last().0) {
            Some(w) => coin_denoms(votes.last().1),
            None => Seq::empty(),
        }
    }
}

/// Keep the first occurrence of each element.
pub open spec fn dedup_first(s: Seq<Seq<char>>) -> Seq<Seq<char>>
    decreases s.len(),
{
    if s.len() == 0 {
        Seq::empty()
    } else {
        let p = dedup_first(s.drop_last());
        if s.drop_last().contains(s.last()) {
            p
        } else {
            p.push(s.last())
        }
    }
}

/// The denoms an aggregation pass reports on, in first-contribution order.
pub open spec fn denom_order(
    votes: Seq<(Seq<char>, Seq<CoinV>)>,
    weights: Seq<(Seq<char>, u64)>,
) -> Seq<Seq<char>> {
    dedup_first(all_contrib_denoms(votes, weights))
}

// ------------------------------------------------------------------
// Emitted events
// ------------------------------------------------------------------

/// An event the engine emits during an aggregation pass.
#[derive(Clone, Debug)]
pub enum OracleEmit {
    Abstain(MessagePriceAbstain),
    Drift(MessagePriceDrift),
    Validator(MessageValidatorEvent),
}

/// The mathematical content of an emitted event.
pub enum OracleEmitV {
    AbstainV {
        height: u64,
        operator_address: Seq<char>,
        denoms: Seq<Seq<char>>,
        txhash: Seq<char>,
    },
    DriftV {
        height: u64,
        operator_address: Seq<char>,
        denom: Seq<char>,
        average: int,
        weighted_average: int,
        submitted: int,
        txhash: Seq<char>,
    },
    ValidatorV {
        height: u64,
        operator_address: Seq<char>,
        moniker: Option<Seq<char>>,
        event_type: ValidatorEventType,
        message: Seq<char>,
        hash: Option<Seq<char>>,
    },
}

/// The view of an emitted event.
pub open spec fn emit_view(e: OracleEmit) -> OracleEmitV {
    match e {
        OracleEmit::Abstain(m) => OracleEmitV::AbstainV {
            height: m.height,
            operator_address: m.operator_address@,
            denoms: m.denoms.deep_view(),
            txhash: m.txhash@,
        },
        OracleEmit::Drift(m) => OracleEmitV::DriftV {
            height: m.height,
            operator_address: m.operator_address@,
            denom: m.denom@,
            average: m.average@,
            weighted_average: m.weighted_average@,
            submitted: m.submitted@,
            txhash: m.txhash@,
        },
        OracleEmit::Validator(m) => OracleEmitV::ValidatorV {
            height: m.height,
            operator_address: m.operator_address@,
            moniker: crate::types::opt_str_view(m.moniker),
            event_type: m.event_type,
            message: m.message@,
            hash: crate::types::opt_str_view(m.hash),
        },
    }
}

/// The views of a sequence of emitted events.
pub open spec fn emits_view(s: Seq<OracleEmit>) -> Seq<OracleEmitV> {
    s.map_values(|e: OracleEmit| emit_view(e))
}

/// A validator's recorded transaction hash, or the sentinel.
pub open spec fn hash_or_missing(hashes: Seq<(Seq<char>, Seq<char>)>, addr: Seq<char>) -> Seq<
    char,
> {
    match vget(hashes, addr) {
        Some(h) => h,
        None => "-missing hash-"@,
    }
}

/// The denoms of one validator's abstained coins (amount at or below
/// the threshold), in coin order.
pub open spec fn abstain_denoms(coins: Seq<CoinV>) -> Seq<Seq<char>>
    decreases coins.len(),
{
    if coins.len() == 0 {
        Seq::empty()
    } else {
        abstain_denoms(coins.drop_last()) + if coins.last().units <= thresh() {
            seq![coins.last().denom]
        } else {
            Seq::empty()
        }
    }
}

/// The abstain event one weighted validator with at least one abstained
/// denom produces.
pub open spec fn one_abstain(
    entry: (Seq<char>, Seq<CoinV>),
    weights: Seq<(Seq<char>, u64)>,
    hashes: Seq<(Seq<char>, Seq<char>)>,
    height: u64,
) -> Seq<OracleEmitV> {
    if vget(weights, entry.0) is Some && abstain_denoms(entry.1).len() > 0 {
        seq![
            OracleEmitV::AbstainV {
                height,
                operator_address: entry.0,
                denoms: abstain_denoms(entry.1),
                txhash: hash_or_missing(hashes, entry.0),
            },
        ]
    } else {
        Seq::empty()
    }
}

/// All abstain events of a pass, in validator order.
pub open spec fn abstain_events(
    votes: Seq<(Seq<char>, Seq<CoinV>)>,
    weights: Seq<(Seq<char>, u64)>,
    hashes: Seq<(Seq<char>, Seq<char>)>,
    height: u64,
) -> Seq<OracleEmitV>
    decreases votes.len(),
{
    if votes.len() == 0 {
        Seq::empty()
    } else {
        abstain_events(votes.drop_last(), weights, hashes, height) + one_abstain(
            votes.last(),
            weights,
            hashes,
            height,
        )
    }
}

/// The simple average for a denom: raw sum over contributor count.
pub open spec fn avg_of(
    votes: Seq<(Seq<char>, Seq<CoinV>)>,
    weights: Seq<(Seq<char>, u64)>,
    d: Seq<char>,
) -> int {
    votes_acc(votes, weights, d).sum / votes_acc(votes, weights, d).count
}

/// The stake-weighted average for a denom; zero when the contributing
/// weight is zero (reporting only, it gates nothing).
pub open spec fn wavg_of(
    votes: Seq<(Seq<char>, Seq<CoinV>)>,
    weights: Seq<(Seq<char>, u64)>,
    d: Seq<char>,
) -> int {
    let a = votes_acc(votes, weights, d);
    if a.weight > 0 {
        a.wsum / a.weight
    } else {
        0
    }
}

/// The largest deviation from the simple average that does not count as
/// drift: `|simple_average * reward_band|`.
pub open spec fn dmax_of(
    votes: Seq<(Seq<char>, Seq<CoinV>)>,
    weights: Seq<(Seq<char>, u64)>,
    band: int,
    d: Seq<char>,
) -> int {
    iabs(avg_of(votes, weights, d) * band / (DEC_ONE_UNITS as int))
}

/// The first coin of denom `d` in a vote, if any.
pub open spec fn find_coin(coins: Seq<CoinV>, d: Seq<char>) -> Option<CoinV>
    decreases coins.len(),
{
    if coins.len() == 0 {
        None
    } else if coins[0].denom == d {
        Some(coins[0])
    } else {
        find_coin(coins.drop_first(), d)
    }
}

/// The drift event one validator produces for denom `d`, given the
/// denom's averages and deviation bound.
pub open spec fn drift_one(
    entry: (Seq<char>, Seq<CoinV>),
    avg: int,
    wavg: int,
    dmax: int,
    hashes: Seq<(Seq<char>, Seq<char>)>,
    height: u64,
    d: Seq<char>,
) -> Seq<OracleEmitV> {
    match find_coin(entry.1, d) {
        Some(c) => if c.units > thresh() && iabs(c.units - avg) > dmax {
            seq![
                OracleEmitV::DriftV {
                    height,
                    operator_address: entry.0,
                    denom: d,
                    average: avg,
                    weighted_average: wavg,
                    submitted: c.units,
                    txhash: hash_or_missing(hashes, entry.0),
                },
            ]
        } else {
            Seq::empty()
        },
        None => Seq::empty(),
    }
}

/// The drift events denom `d` produces over a prefix of the validators.
pub open spec fn denom_drifts(
    part: Seq<(Seq<char>, Seq<CoinV>)>,
    votes: Seq<(Seq<char>, Seq<CoinV>)>,
    weights: Seq<(Seq<char>, u64)>,
    hashes: Seq<(Seq<char>, Seq<char>)>,
    band: int,
    height: u64,
    d: Seq<char>,
) -> Seq<OracleEmitV>
    decreases part.len(),
{
    if part.len() == 0 {
        Seq::empty()
    } else {
        denom_drifts(part.drop_last(), votes, weights, hashes, band, height, d) + drift_one(
            part.last(),
            avg_of(votes, weights, d),
            wavg_of(votes, weights, d),
            dmax_of(votes, weights, band, d),
            hashes,
            height,
            d,
        )
    }
}

/// The drift events of a pass: per denom in first-contribution order,
/// per validator in map order.
pub open spec fn drift_events(
    denoms: Seq<Seq<char>>,
    votes: Seq<(Seq<char>, Seq<CoinV>)>,
    weights: Seq<(Seq<char>, u64)>,
    hashes: Seq<(Seq<char>, Seq<char>)>,
    band: int,
    height: u64,
) -> Seq<OracleEmitV>
    decreases denoms.len(),
{
    if denoms.len() == 0 {
        Seq::empty()
    } else {
        drift_events(denoms.drop_last(), votes, weights, hashes, band, height) + denom_drifts(
            votes,
            votes,
            weights,
            hashes,
            band,
            height,
            denoms.last(),
        )
    }
}

/// Everything an aggregation pass emits: abstains, then drifts.
pub open spec fn price_average_events(
    votes: Seq<(Seq<char>, Seq<CoinV>)>,
    weights: Seq<(Seq<char>, u64)>,
    hashes: Seq<(Seq<char>, Seq<char>)>,
    band: int,
    height: u64,
) -> Seq<OracleEmitV> {
    abstain_events(votes, weights, hashes, height) + drift_events(
        denom_order(votes, weights),
        votes,
        weights,
        hashes,
        band,
        height,
    )
}

// ------------------------------------------------------------------
// Facts about contributions and accumulators
// ------------------------------------------------------------------

/// Membership in a pushed sequence.
pub proof fn lemma_contains_push<A>(s: Seq<A>, y: A, x: A)
    ensures
        s.push(y).contains(x) <==> (s.contains(x) || x == y),
{
    if s.contains(x) {
        let i = choose|i: int| 0 <= i < s.len() && s[i] == x;
        assert(s.push(y)[i] == x);
    }
    assert(s.push(y)[s.len() as int] == y);
    if s.push(y).contains(x) {
        let i = choose|i: int| 0 <= i < s.push(y).len() && s.push(y)[i] == x;
        if i < s.len() {
            assert(s[i] == x);
        }
    }
}

/// Membership in a concatenation.
pub proof fn lemma_contains_concat<A>(a: Seq<A>, b: Seq<A>, x: A)
    ensures
        (a + b).contains(x) <==> (a.contains(x) || b.contains(x)),
{
    if a.contains(x) {
        let i = choose|i: int| 0 <= i < a.len() && a[i] == x;
        assert((a + b)[i] == x);
    }
    if b.contains(x) {
        let i = choose|i: int| 0 <= i < b.len() && b[i] == x;
        assert((a + b)[a.len() + i] == x);
    }
    if (a + b).contains(x) {
        let i = choose|i: int| 0 <= i < (a + b).len() && (a + b)[i] == x;
        if i < a.len() {
            assert(a[i] == x);
        } else {
            assert(b[i - a.len()] == x);
        }
    }
}

/// One validator's contributions: at most one per coin, each the units
/// of a contributing coin paired with the validator's weight.
pub proof fn lemma_coin_props(coins: Seq<CoinV>, w: u64, d: Seq<char>)
    requires
        forall|j: int|
            0 <= j < coins.len() ==> -(DEC_MAX_UNITS as int) <= (#[trigger] coins[j]).units
                <= DEC_MAX_UNITS as int,
    ensures
        coin_contribs(coins, w, d).len() <= coins.len(),
        coin_denoms(coins).contains(d) <==> coin_contribs(coins, w, d).len() > 0,
        forall|k: int|
            0 <= k < coin_contribs(coins, w, d).len() ==> {
                &&& thresh() < (#[trigger] coin_contribs(coins, w, d)[k]).0
                    <= DEC_MAX_UNITS as int
                &&& coin_contribs(coins, w, d)[k].1 == w as int
            },
    decreases coins.len(),
{
    if coins.len() > 0 {
        let pre = coins.drop_last();
        assert(forall|j: int|
            0 <= j < pre.len() ==> -(DEC_MAX_UNITS as int) <= (#[trigger] pre[j]).units
                <= DEC_MAX_UNITS as int);
        lemma_coin_props(pre, w, d);
        let c = coins.last();
        let tail_c: Seq<(int, int)> = if c.denom == d && c.units > thresh() {
            seq![(c.units, w as int)]
        } else {
            Seq::empty()
        };
        let tail_d: Seq<Seq<char>> = if c.units > thresh() {
            seq![c.denom]
        } else {
            Seq::empty()
        };
        assert(coin_contribs(coins, w, d) == coin_contribs(pre, w, d) + tail_c);
        assert(coin_denoms(coins) == coin_denoms(pre) + tail_d);
        lemma_contains_concat(coin_denoms(pre), tail_d, d);
        if tail_d.len() > 0 {
            assert(tail_d.contains(d) <==> tail_d[0] == d);
        }
    }
}

/// All contributions to a denom: bounded in number and magnitude, and
/// present exactly when the denom appears among the contributed denoms.
pub proof fn lemma_vote_props(
    votes: Seq<(Seq<char>, Seq<CoinV>)>,
    weights: Seq<(Seq<char>, u64)>,
    d: Seq<char>,
)
    requires
        forall|i: int| 0 <= i < votes.len() ==> coins_bounded((#[trigger] votes[i]).1),
        forall|i: int| 0 <= i < weights.len() ==> (#[trigger] weights[i]).1 <= WEIGHT_MAX,
    ensures
        vote_contribs(votes, weights, d).len() <= votes.len() * MAX_VOTE_COINS,
        all_contrib_denoms(votes, weights).contains(d) <==> vote_contribs(votes, weights, d).len()
            > 0,
        forall|k: int|
            0 <= k < vote_contribs(votes, weights, d).len() ==> {
                &&& thresh() < (#[trigger] vote_contribs(votes, weights, d)[k]).0
                    <= DEC_MAX_UNITS as int
                &&& 0 <= vote_contribs(votes, weights, d)[k].1 <= WEIGHT_MAX
            },
    decreases votes.len(),
{
    if votes.len() == 0 {
        assert(votes.len() * MAX_VOTE_COINS == 0);
    } else {
        let pre = votes.drop_last();
        assert(forall|i: int| 0 <= i < pre.len() ==> coins_bounded((#[trigger] pre[i]).1));
        lemma_vote_props(pre, weights, d);
        let e = votes.last();
        assert(coins_bounded(e.1));
        let tail_c: Seq<(int, int)> = match vget(weights, e.0) {
            Some(w) => coin_contribs(e.1, w, d),
            None => Seq::empty(),
        };
        let tail_d: Seq<Seq<char>> = match vget(weights, e.0) {
            Some(w) => coin_denoms(e.1),
            None => Seq::empty(),
        };
        assert(vote_contribs(votes, weights, d) == vote_contribs(pre, weights, d) + tail_c);
        assert(all_contrib_denoms(votes, weights) == all_contrib_denoms(pre, weights) + tail_d);
        match vget(weights, e.0) {
            Some(w) => {
                lemma_vfind_is_first(weights, e.0);
                assert(w == weights[vfind(weights, e.0)].1);
                assert(w <= WEIGHT_MAX);
                lemma_coin_props(e.1, w, d);
            },
            None => {},
        }
        lemma_contains_concat(all_contrib_denoms(pre, weights), tail_d, d);
        assert(tail_c.len() <= MAX_VOTE_COINS);
        assert((votes.len() - 1) * MAX_VOTE_COINS + MAX_VOTE_COINS == votes.len()
            * MAX_VOTE_COINS) by (nonlinear_arith);
    }
}

/// Folding a bounded contribution list: the count is the length and the
/// sums are within the corresponding multiples of the bounds.
pub proof fn lemma_acc_bounds(c: Seq<(int, int)>, amax: int, wmax: int)
    requires
        amax >= 0,
        wmax >= 0,
        forall|k: int|
            0 <= k < c.len() ==> {
                &&& 0 <= (#[trigger] c[k]).0 <= amax
                &&& 0 <= c[k].1 <= wmax
            },
    ensures
        acc_of(c).count == c.len(),
        0 <= acc_of(c).sum <= c.len() * amax,
        0 <= acc_of(c).weight <= c.len() * wmax,
        0 <= acc_of(c).wsum <= c.len() * (amax * wmax),
    decreases c.len(),
{
    if c.len() == 0 {
        assert(c.len() * amax == 0);
        assert(c.len() * wmax == 0);
        assert(c.len() * (amax * wmax) == 0);
    } else {
        let pre = c.drop_last();
        assert(forall|k: int|
            0 <= k < pre.len() ==> {
                &&& 0 <= (#[trigger] pre[k]).0 <= amax
                &&& 0 <= pre[k].1 <= wmax
            });
        lemma_acc_bounds(pre, amax, wmax);
        let p = c.last();
        let n = c.len() as int;
        assert(0 <= p.0 * p.1 <= amax * wmax) by (nonlinear_arith)
            requires
                0 <= p.0 <= amax,
                0 <= p.1 <= wmax,
        ;
        assert((n - 1) * amax + amax == n * amax) by (nonlinear_arith);
        assert((n - 1) * wmax + wmax == n * wmax) by (nonlinear_arith);
        assert((n - 1) * (amax * wmax) + amax * wmax == n * (amax * wmax)) by (nonlinear_arith);
    }
}

/// First occurrences keep membership.
pub proof fn lemma_dedup_membership(s: Seq<Seq<char>>, x: Seq<char>)
    ensures
        dedup_first(s).contains(x) <==> s.contains(x),
    decreases s.len(),
{
    if s.len() > 0 {
        let pre = s.drop_last();
        lemma_dedup_membership(pre, x);
        assert(s =~= pre.push(s.last()));
        lemma_contains_push(pre, s.last(), x);
        if !pre.contains(s.last()) {
            lemma_contains_push(dedup_first(pre), s.last(), x);
        }
    }
}

/// For a non-negative dividend and positive divisor, the quotient lies
/// between zero and the dividend.
pub proof fn lemma_div_shrinks(a: int, b: int)
    requires
        a >= 0,
        b >= 1,
    ensures
        0 <= a / b <= a,
{
    vstd::arithmetic::div_mod::lemma_fundamental_div_mod(a, b);
    vstd::arithmetic::div_mod::lemma_mod_division_less_than_divisor(a, b);
    let q = a / b;
    let r = a % b;
    assert(0 <= q <= a) by (nonlinear_arith)
        requires
            b * q + r == a,
            0 <= r < b,
            b >= 1,
            a >= 0,
    ;
}

/// The key sequence of an entry list.
pub open spec fn keys_of<X>(s: Seq<(Seq<char>, X)>) -> Seq<Seq<char>> {
    s.map_values(|e: (Seq<char>, X)| e.0)
}

/// A key occurs among the keys exactly when the map has it.
pub proof fn lemma_keys_has<X>(s: Seq<(Seq<char>, X)>, k: Seq<char>)
    ensures
        keys_of(s).contains(k) <==> vhas(s, k),
{
    lemma_vfind_is_first(s, k);
    if vhas(s, k) {
        assert(keys_of(s)[vfind(s, k)] == k);
    }
    if keys_of(s).contains(k) {
        let i = choose|i: int| 0 <= i < keys_of(s).len() && keys_of(s)[i] == k;
        assert(s[i].0 == k);
    }
}

// ------------------------------------------------------------------
// Laws of the aggregation pass
// ------------------------------------------------------------------

/// The smallest amount in a contribution list (zero when empty).
pub open spec fn min_amount(c: Seq<(int, int)>) -> int
    decreases c.len(),
{
    if c.len() == 0 {
        0
    } else if c.len() == 1 {
        c[0].0
    } else {
        let m = min_amount(c.drop_last());
        if c.last().0 < m {
            c.last().0
        } else {
            m
        }
    }
}

/// The largest amount in a contribution list (zero when empty).
pub open spec fn max_amount(c: Seq<(int, int)>) -> int
    decreases c.len(),
{
    if c.len() == 0 {
        0
    } else if c.len() == 1 {
        c[0].0
    } else {
        let m = max_amount(c.drop_last());
        if c.last().0 > m {
            c.last().0
        } else {
            m
        }
    }
}

proof fn lemma_acc_hull(c: Seq<(int, int)>)
    requires
        c.len() > 0,
        forall|k: int| 0 <= k < c.len() ==> (#[trigger] c[k]).1 > 0,
    ensures
        acc_of(c).weight > 0,
        min_amount(c) * acc_of(c).weight <= acc_of(c).wsum,
        acc_of(c).wsum <= max_amount(c) * acc_of(c).weight,
        min_amount(c) <= max_amount(c),
    decreases c.len(),
{
    let a = c.last().0;
    let w = c.last().1;
    if c.len() == 1 {
        assert(acc_of(c) == acc_add(acc_of(c.drop_last()), c.last()));
        assert(acc_of(c.drop_last()) == acc_zero());
        assert(acc_of(c).wsum == a * w);
        assert(acc_of(c).weight == w);
    } else {
        let pre = c.drop_last();
        assert(forall|k: int| 0 <= k < pre.len() ==> (#[trigger] pre[k]).1 > 0);
        lemma_acc_hull(pre);
        let p = acc_of(pre);
        let mn = min_amount(c);
        let mx = max_amount(c);
        assert(mn <= min_amount(pre) && mn <= a);
        assert(mx >= max_amount(pre) && mx >= a);
        assert(mn * (p.weight + w) <= p.wsum + a * w) by (nonlinear_arith)
            requires
                mn <= min_amount(pre),
                mn <= a,
                min_amount(pre) * p.weight <= p.wsum,
                p.weight > 0,
                w > 0,
        ;
        assert(p.wsum + a * w <= mx * (p.weight + w)) by (nonlinear_arith)
            requires
                mx >= max_amount(pre),
                mx >= a,
                max_amount(pre) * p.weight >= p.wsum,
                p.weight > 0,
                w > 0,
        ;
    }
}

/// Law: when every contributing validator has positive weight, the
/// weighted average for a denom lies within the convex hull of the
/// submitted amounts — between the smallest and the largest of them.
pub proof fn lemma_weighted_average_in_hull(
    votes: Seq<(Seq<char>, Seq<CoinV>)>,
    weights: Seq<(Seq<char>, u64)>,
    d: Seq<char>,
)
    requires
        vote_contribs(votes, weights, d).len() > 0,
        forall|k: int|
            0 <= k < vote_contribs(votes, weights, d).len() ==> (#[trigger] vote_contribs(
                votes,
                weights,
                d,
            )[k]).1 > 0,
    ensures
        min_amount(vote_contribs(votes, weights, d)) <= wavg_of(votes, weights, d),
        wavg_of(votes, weights, d) <= max_amount(vote_contribs(votes, weights, d)),
{
    let c = vote_contribs(votes, weights, d);
    lemma_acc_hull(c);
    let acc = acc_of(c);
    let mn = min_amount(c);
    let mx = max_amount(c);
    vstd::arithmetic::div_mod::lemma_div_is_ordered(mn * acc.weight, acc.wsum, acc.weight);
    vstd::arithmetic::div_mod::lemma_div_is_ordered(acc.wsum, mx * acc.weight, acc.weight);
    vstd::arithmetic::div_mod::lemma_div_multiples_vanish(mn, acc.weight);
    vstd::arithmetic::div_mod::lemma_div_multiples_vanish(mx, acc.weight);
    assert(mn * acc.weight == acc.weight * mn) by (nonlinear_arith);
    assert(mx * acc.weight == acc.weight * mx) by (nonlinear_arith);
}

/// Law: an amount at or below the significance threshold is excluded
/// from the accumulators — every contribution exceeds the threshold.
pub proof fn lemma_abstained_excluded(
    votes: Seq<(Seq<char>, Seq<CoinV>)>,
    weights: Seq<(Seq<char>, u64)>,
    d: Seq<char>,
)
    requires
        forall|i: int| 0 <= i < votes.len() ==> coins_bounded((#[trigger] votes[i]).1),
        forall|i: int| 0 <= i < weights.len() ==> (#[trigger] weights[i]).1 <= WEIGHT_MAX,
    ensures
        forall|k: int|
            0 <= k < vote_contribs(votes, weights, d).len() ==> (#[trigger] vote_contribs(
                votes,
                weights,
                d,
            )[k]).0 > thresh(),
{
    lemma_vote_props(votes, weights, d);
}

/// Whether an emitted event is an abstain event for `addr`.
pub open spec fn is_abstain_for(ev: OracleEmitV, addr: Seq<char>) -> bool {
    match ev {
        OracleEmitV::AbstainV { operator_address, .. } => operator_address == addr,
        _ => false,
    }
}

/// Whether validator `vi` drifts on denom `d`: it submitted a
/// non-abstained first amount for `d` whose distance from the simple
/// average strictly exceeds the allowed deviation.  Boundary equality
/// does not drift.
pub open spec fn drift_cond(
    votes: Seq<(Seq<char>, Seq<CoinV>)>,
    weights: Seq<(Seq<char>, u64)>,
    band: int,
    vi: int,
    d: Seq<char>,
) -> bool {
    &&& find_coin(votes[vi].1, d) is Some
    &&& find_coin(votes[vi].1, d).unwrap().units > thresh()
    &&& iabs(find_coin(votes[vi].1, d).unwrap().units - avg_of(votes, weights, d)) > dmax_of(
        votes,
        weights,
        band,
        d,
    )
}

/// The drift event validator `vi` would emit for denom `d`.
pub open spec fn drift_event_of(
    votes: Seq<(Seq<char>, Seq<CoinV>)>,
    weights: Seq<(Seq<char>, u64)>,
    hashes: Seq<(Seq<char>, Seq<char>)>,
    band: int,
    height: u64,
    vi: int,
    d: Seq<char>,
) -> OracleEmitV {
    OracleEmitV::DriftV {
        height,
        operator_address: votes[vi].0,
        denom: d,
        average: avg_of(votes, weights, d),
        weighted_average: wavg_of(votes, weights, d),
        submitted: find_coin(votes[vi].1, d).unwrap().units,
        txhash: hash_or_missing(hashes, votes[vi].0),
    }
}

#[verifier::spinoff_prover]
proof fn lemma_denom_drifts_contains(
    votes: Seq<(Seq<char>, Seq<CoinV>)>,
    weights: Seq<(Seq<char>, u64)>,
    hashes: Seq<(Seq<char>, Seq<char>)>,
    band: int,
    height: u64,
    d: Seq<char>,
    vi: int,
    pl: int,
)
    requires
        vunique(votes),
        0 <= vi < votes.len(),
        0 <= pl <= votes.len(),
    ensures
        denom_drifts(votes.take(pl), votes, weights, hashes, band, height, d).contains(
            drift_event_of(votes, weights, hashes, band, height, vi, d),
        ) <==> (vi < pl && drift_cond(votes, weights, band, vi, d)),
    decreases pl,
{
    let expected = drift_event_of(votes, weights, hashes, band, height, vi, d);
    if pl == 0 {
        assert(votes.take(pl) =~= Seq::<(Seq<char>, Seq<CoinV>)>::empty());
        assert(!denom_drifts(votes.take(pl), votes, weights, hashes, band, height, d).contains(
            expected,
        ));
    } else {
        lemma_denom_drifts_contains(votes, weights, hashes, band, height, d, vi, pl - 1);
        assert(votes.take(pl).drop_last() =~= votes.take(pl - 1));
        assert(votes.take(pl).last() == votes[pl - 1]);
        let prefix = denom_drifts(votes.take(pl - 1), votes, weights, hashes, band, height, d);
        let tail = drift_one(
            votes[pl - 1],
            avg_of(votes, weights, d),
            wavg_of(votes, weights, d),
            dmax_of(votes, weights, band, d),
            hashes,
            height,
            d,
        );
        assert(denom_drifts(votes.take(pl), votes, weights, hashes, band, height, d) == prefix
            + tail);
        lemma_contains_concat(prefix, tail, expected);
        if tail.len() > 0 {
            assert(tail.contains(expected) <==> tail[0] == expected);
        }
        if vi == pl - 1 {
            if drift_cond(votes, weights, band, vi, d) {
                assert(tail[0] == expected);
            } else {
                assert(tail.len() == 0 || tail[0] != expected);
            }
        } else {
            if tail.len() > 0 {
                assert(votes[pl - 1].0 != votes[vi].0);
                assert(tail[0] != expected);
            }
        }
    }
}

proof fn lemma_denom_drifts_denoms(
    part: Seq<(Seq<char>, Seq<CoinV>)>,
    votes: Seq<(Seq<char>, Seq<CoinV>)>,
    weights: Seq<(Seq<char>, u64)>,
    hashes: Seq<(Seq<char>, Seq<char>)>,
    band: int,
    height: u64,
    d: Seq<char>,
    ev: OracleEmitV,
)
    requires
        denom_drifts(part, votes, weights, hashes, band, height, d).contains(ev),
    ensures
        ev matches OracleEmitV::DriftV { denom, .. } && denom == d,
    decreases part.len(),
{
    let prefix = denom_drifts(part.drop_last(), votes, weights, hashes, band, height, d);
    let tail = drift_one(
        part.last(),
        avg_of(votes, weights, d),
        wavg_of(votes, weights, d),
        dmax_of(votes, weights, band, d),
        hashes,
        height,
        d,
    );
    assert(denom_drifts(part, votes, weights, hashes, band, height, d) == prefix + tail);
    lemma_contains_concat(prefix, tail, ev);
    if prefix.contains(ev) {
        lemma_denom_drifts_denoms(
            part.drop_last(),
            votes,
            weights,
            hashes,
            band,
            height,
            d,
            ev,
        );
    } else {
        assert(tail.contains(ev) ==> tail[0] == ev);
    }
}

/// First occurrences are pairwise distinct.
pub proof fn lemma_dedup_unique(s: Seq<Seq<char>>)
    ensures
        forall|i: int, j: int|
            0 <= i < j < dedup_first(s).len() ==> dedup_first(s)[i] != dedup_first(s)[j],
    decreases s.len(),
{
    if s.len() > 0 {
        let pre = s.drop_last();
        lemma_dedup_unique(pre);
        lemma_dedup_membership(pre, s.last());
        let dd = dedup_first(s);
        if !pre.contains(s.last()) {
            assert forall|i: int, j: int| 0 <= i < j < dd.len() implies dd[i] != dd[j] by {
                if j == dd.len() - 1 {
                    assert(dd[j] == s.last());
                    assert(dd[i] == dedup_first(pre)[i]);
                    if dd[i] == s.last() {
                        let x = dedup_first(pre)[i];
                        assert(dedup_first(pre).contains(x));
                    }
                } else {
                    assert(dd[i] == dedup_first(pre)[i]);
                    assert(dd[j] == dedup_first(pre)[j]);
                }
            }
        }
    }
}

proof fn lemma_drift_events_for(
    denoms: Seq<Seq<char>>,
    votes: Seq<(Seq<char>, Seq<CoinV>)>,
    weights: Seq<(Seq<char>, u64)>,
    hashes: Seq<(Seq<char>, Seq<char>)>,
    band: int,
    height: u64,
    vi: int,
    d: Seq<char>,
)
    requires
        vunique(votes),
        0 <= vi < votes.len(),
    ensures
        drift_events(denoms, votes, weights, hashes, band, height).contains(
            drift_event_of(votes, weights, hashes, band, height, vi, d),
        ) <==> (denoms.contains(d) && denom_drifts(votes, votes, weights, hashes, band, height, d)
            .contains(drift_event_of(votes, weights, hashes, band, height, vi, d))),
    decreases denoms.len(),
{
    let expected = drift_event_of(votes, weights, hashes, band, height, vi, d);
    if denoms.len() == 0 {
        assert(!drift_events(denoms, votes, weights, hashes, band, height).contains(expected));
        assert(!denoms.contains(d));
    } else {
        let pre = denoms.drop_last();
        lemma_drift_events_for(pre, votes, weights, hashes, band, height, vi, d);
        let prefix = drift_events(pre, votes, weights, hashes, band, height);
        let tail = denom_drifts(votes, votes, weights, hashes, band, height, denoms.last());
        assert(drift_events(denoms, votes, weights, hashes, band, height) == prefix + tail);
        lemma_contains_concat(prefix, tail, expected);
        lemma_contains_push(pre, denoms.last(), d);
        assert(denoms =~= pre.push(denoms.last()));
        if tail.contains(expected) {
            lemma_denom_drifts_denoms(
                votes,
                votes,
                weights,
                hashes,
                band,
                height,
                denoms.last(),
                expected,
            );
            assert(denoms.last() == d);
        }
        if denoms.last() == d && denom_drifts(
            votes,
            votes,
            weights,
            hashes,
            band,
            height,
            d,
        ).contains(expected) {
            assert(tail.contains(expected));
        }
    }
}

/// Law: the aggregation pass flags validator `vi` for denom `d` if and
/// only if `d` is a reported denom and `|submitted - simple_average|`
/// strictly exceeds `|simple_average * reward_band|`, where `submitted`
/// is the validator's first non-abstained amount for `d`.
#[verifier::spinoff_prover]
pub proof fn lemma_drift_iff(
    votes: Seq<(Seq<char>, Seq<CoinV>)>,
    weights: Seq<(Seq<char>, u64)>,
    hashes: Seq<(Seq<char>, Seq<char>)>,
    band: int,
    height: u64,
    vi: int,
    d: Seq<char>,
)
    requires
        vunique(votes),
        0 <= vi < votes.len(),
    ensures
        drift_events(denom_order(votes, weights), votes, weights, hashes, band, height).contains(
            drift_event_of(votes, weights, hashes, band, height, vi, d),
        ) <==> (denom_order(votes, weights).contains(d) && drift_cond(votes, weights, band, vi, d)),
{
    lemma_drift_events_for(denom_order(votes, weights), votes, weights, hashes, band, height, vi, d);
    lemma_denom_drifts_contains(votes, weights, hashes, band, height, d, vi, votes.len() as int);
    assert(votes.take(votes.len() as int) =~= votes);
}

// ------------------------------------------------------------------
// Vote application, missed-vote detection, staleness pruning
// ------------------------------------------------------------------

/// The view-level window state that votes act on.
pub struct VoteStateV {
    pub prices: Seq<(Seq<char>, Seq<CoinV>)>,
    pub seen: Seq<(Seq<char>, u64)>,
    pub hash: Seq<(Seq<char>, Seq<char>)>,
}

/// Apply one transaction message: a message whose discriminator is the
/// aggregate-vote type and whose vote decodes and parses replaces that
/// validator's record wholesale; everything else changes nothing.  A
/// vote is also dropped when its coin list is over `MAX_VOTE_COINS` or
/// when it comes from a new validator while `MAX_VALIDATORS` are
/// already tracked.
pub open spec fn apply_message(
    st: VoteStateV,
    m: TxMessage,
    height: u64,
    txhash: Seq<char>,
) -> VoteStateV {
    match m.s_type {
        Some(tag) => if tag@ == oracle_vote_tag() {
            match m.vote {
                Some(v) => if rates_ok(v.exchange_rates@) && rates_of(v.exchange_rates@).len()
                    <= MAX_VOTE_COINS && (vhas(st.prices, v.validator@) || st.prices.len()
                    < MAX_VALIDATORS) {
                    VoteStateV {
                        prices: vput(st.prices, v.validator@, rates_of(v.exchange_rates@)),
                        seen: vput(st.seen, v.validator@, height),
                        hash: vput(st.hash, v.validator@, txhash),
                    }
                } else {
                    st
                },
                None => st,
            }
        } else {
            st
        },
        None => st,
    }
}

/// Apply a transaction's messages in order; a later vote from the same
/// validator fully overwrites an earlier one.
pub open spec fn apply_messages(
    st: VoteStateV,
    msgs: Seq<TxMessage>,
    height: u64,
    txhash: Seq<char>,
) -> VoteStateV
    decreases msgs.len(),
{
    if msgs.len() == 0 {
        st
    } else {
        apply_message(
            apply_messages(st, msgs.drop_last(), height, txhash),
            msgs.last(),
            height,
            txhash,
        )
    }
}

/// The window state after one observed transaction: only transactions
/// in the chain's current envelope are scanned.
pub open spec fn tx_applied_state(st0: VoteStateV, tx: crate::types::TXandResult) -> VoteStateV {
    if tx.tx.s_type@ == cosmos_tx_tag() {
        apply_messages(st0, tx.tx.body.messages@, tx.height, tx.txhash@)
    } else {
        st0
    }
}

/// Whether a transaction at height `h` closes the current window.
pub open spec fn window_due(last: u64, period: u64, h: u64) -> bool {
    h as int >= last as int + period as int
}

/// The height a validator must have been seen at to not count as
/// having missed a vote.
pub open spec fn lag_height(last: u64, period: u64) -> int {
    if period < last {
        last - period
    } else {
        0
    }
}

/// The warning message reported for a validator that missed a vote.
pub open spec fn missed_vote_message(seen: u64) -> Seq<char> {
    "Operator missed a vote? Last Seen:"@ + spec_u64_digits(seen as nat)
}

/// One warning event per validator last seen strictly below the lag
/// height, in map order.
pub open spec fn laggy_events(seen: Seq<(Seq<char>, u64)>, lag: int, height: u64) -> Seq<
    OracleEmitV,
>
    decreases seen.len(),
{
    if seen.len() == 0 {
        Seq::empty()
    } else {
        laggy_events(seen.drop_last(), lag, height) + if (seen.last().1 as int) < lag {
            seq![
                OracleEmitV::ValidatorV {
                    height,
                    operator_address: seen.last().0,
                    moniker: None,
                    event_type: ValidatorEventType::WARN,
                    message: missed_vote_message(seen.last().1),
                    hash: None,
                },
            ]
        } else {
            Seq::empty()
        }
    }
}

/// The last-seen entries that survive pruning at `height`: exactly
/// those whose height `H` satisfies `height <= H + STALE_HORIZON`.
pub open spec fn retained(seen: Seq<(Seq<char>, u64)>, height: u64) -> Seq<(Seq<char>, u64)>
    decreases seen.len(),
{
    if seen.len() == 0 {
        Seq::empty()
    } else {
        retained(seen.drop_last(), height) + if height as int <= seen.last().1 as int
            + STALE_HORIZON as int {
            seq![seen.last()]
        } else {
            Seq::empty()
        }
    }
}

/// A key present after a concatenation was present in one of the parts.
pub proof fn lemma_vhas_concat<X>(a: Seq<(Seq<char>, X)>, b: Seq<(Seq<char>, X)>, k: Seq<char>)
    ensures
        vhas(a + b, k) <==> (vhas(a, k) || vhas(b, k)),
{
    lemma_keys_has(a + b, k);
    lemma_keys_has(a, k);
    lemma_keys_has(b, k);
    assert(keys_of(a + b) =~= keys_of(a) + keys_of(b));
    lemma_contains_concat(keys_of(a), keys_of(b), k);
}

/// Pruning introduces no key.
pub proof fn lemma_retained_has(s: Seq<(Seq<char>, u64)>, height: u64, k: Seq<char>)
    requires
        vhas(retained(s, height), k),
    ensures
        vhas(s, k),
    decreases s.len(),
{
    let pre = s.drop_last();
    let tail: Seq<(Seq<char>, u64)> = if height as int <= s.last().1 as int
        + STALE_HORIZON as int {
        seq![s.last()]
    } else {
        Seq::empty()
    };
    assert(retained(s, height) == retained(pre, height) + tail);
    lemma_vhas_concat(retained(pre, height), tail, k);
    if vhas(retained(pre, height), k) {
        lemma_retained_has(pre, height, k);
        lemma_vfind_is_first(pre, k);
        assert(pre[vfind(pre, k)] == s[vfind(pre, k)]);
        lemma_vfind_is_first(s, k);
    } else {
        lemma_vfind_is_first(tail, k);
        assert(tail[0].0 == k);
        assert(s[s.len() - 1].0 == k);
        lemma_vfind_is_first(s, k);
    }
}

/// Pruning keeps keys distinct.
pub proof fn lemma_retained_unique(s: Seq<(Seq<char>, u64)>, height: u64)
    requires
        vunique(s),
    ensures
        vunique(retained(s, height)),
    decreases s.len(),
{
    if s.len() > 0 {
        let pre = s.drop_last();
        assert(vunique(pre));
        lemma_retained_unique(pre, height);
        let tail: Seq<(Seq<char>, u64)> = if height as int <= s.last().1 as int
            + STALE_HORIZON as int {
            seq![s.last()]
        } else {
            Seq::empty()
        };
        let r = retained(s, height);
        assert(r == retained(pre, height) + tail);
        if tail.len() > 0 {
            assert forall|i: int, j: int| 0 <= i < j < r.len() implies r[i].0 != r[j].0 by {
                if j < retained(pre, height).len() {
                    assert(r[i] == retained(pre, height)[i]);
                    assert(r[j] == retained(pre, height)[j]);
                } else {
                    assert(r[j] == s.last());
                    assert(r[i] == retained(pre, height)[i]);
                    if r[i].0 == s.last().0 {
                        let ri = retained(pre, height)[i];
                        lemma_vfind_is_first(retained(pre, height), ri.0);
                        assert(vhas(retained(pre, height), ri.0));
                        lemma_retained_has(pre, height, ri.0);
                        lemma_vfind_is_first(pre, ri.0);
                        let q = vfind(pre, ri.0);
                        assert(s[q] == pre[q]);
                        assert(s[q].0 == s.last().0);
                        assert(q < s.len() - 1);
                    }
                }
            }
        } else {
            assert(r =~= retained(pre, height));
        }
    }
}

// ------------------------------------------------------------------
// The engine
// ------------------------------------------------------------------

/// Index of the first coin of denom `d`, or the number of coins.
pub open spec fn coin_idx(coins: Seq<CoinV>, d: Seq<char>) -> int
    decreases coins.len(),
{
    if coins.len() == 0 {
        0
    } else if coins[0].denom == d {
        0
    } else {
        1 + coin_idx(coins.drop_first(), d)
    }
}

/// `coin_idx` returns the first matching index, and `find_coin` the
/// coin standing there.
pub proof fn lemma_coin_idx_first(coins: Seq<CoinV>, d: Seq<char>)
    ensures
        0 <= coin_idx(coins, d) <= coins.len(),
        forall|i: int| 0 <= i < coin_idx(coins, d) ==> (#[trigger] coins[i]).denom != d,
        coin_idx(coins, d) < coins.len() ==> coins[coin_idx(coins, d)].denom == d && find_coin(
            coins,
            d,
        ) == Some(coins[coin_idx(coins, d)]),
        coin_idx(coins, d) == coins.len() ==> find_coin(coins, d) is None,
        forall|i: int|
            0 <= i < coins.len() && (#[trigger] coins[i]).denom == d ==> coin_idx(coins, d) <= i,
    decreases coins.len(),
{
    if coins.len() > 0 && coins[0].denom != d {
        lemma_coin_idx_first(coins.drop_first(), d);
        assert forall|i: int|
            0 <= i < coins.len() && (#[trigger] coins[i]).denom == d implies coin_idx(coins, d)
            <= i by {
            assert(coins.drop_first()[i - 1] == coins[i]);
        }
        assert forall|i: int| 0 <= i < coin_idx(coins, d) implies (#[trigger] coins[i]).denom
            != d by {
            if i > 0 {
                assert(coins.drop_first()[i - 1] == coins[i]);
            }
        }
    }
}

/// Borrow the first coin of denom `d` in a vote, if any.
fn find_coin_exec<'a>(coins: &'a Vec<Coin>, d: &str) -> (r: Option<&'a Coin>)
    ensures
        match r {
            Some(c) => find_coin(coins.deep_view(), d@) == Some(c@),
            None => find_coin(coins.deep_view(), d@) is None,
        },
{
    let ghost cv = coins.deep_view();
    let n = coins.len();
    proof {
        assert(cv.len() == n);
        assert forall|l: int| 0 <= l < n implies cv[l] == coins@[l]@ by {
            assert(cv[l] == coins@[l].deep_view());
        }
    }
    let mut j: usize = 0;
    while j < n
        invariant
            0 <= j <= n == coins@.len(),
            cv == coins.deep_view(),
            cv.len() == n,
            forall|l: int| 0 <= l < n ==> cv[l] == coins@[l]@,
            forall|l: int| 0 <= l < j ==> (#[trigger] cv[l]).denom != d@,
        decreases n - j,
    {
        if str_eq(coins[j].denom.as_str(), d) {
            proof {
                lemma_coin_idx_first(cv, d@);
                assert(cv[j as int].denom == d@);
                assert(coin_idx(cv, d@) == j as int);
            }
            return Some(&coins[j]);
        }
        j = j + 1;
    }
    proof {
        lemma_coin_idx_first(cv, d@);
    }
    None
}

/// One per-denom accumulator cell as the aggregation pass builds it.
#[derive(Clone, Copy, Debug)]
pub struct AccCell {
    pub count: usize,
    pub weight: u128,
    pub sum: i128,
    pub wsum: i128,
}

impl DeepView for AccCell {
    type V = DenomAcc;

    open spec fn deep_view(&self) -> DenomAcc {
        DenomAcc {
            count: self.count as int,
            weight: self.weight as int,
            sum: self.sum as int,
            wsum: self.wsum as int,
        }
    }
}

/// Bounds on one stored vote that keep aggregation arithmetic in range.
pub open spec fn coins_bounded(coins: Seq<CoinV>) -> bool {
    &&& coins.len() <= MAX_VOTE_COINS
    &&& forall|j: int|
        0 <= j < coins.len() ==> -(DEC_MAX_UNITS as int) <= (#[trigger] coins[j]).units
            <= DEC_MAX_UNITS as int
}

/// The oracle aggregation engine and its window state.
pub struct OracleActor {
    /// Number of blocks per aggregation window.
    pub vote_period: u64,
    pub vote_threshold: Dec,
    /// Fractional deviation threshold for drift.
    pub reward_band: Dec,
    pub reward_distribution_window: u64,
    pub slash_fraction: Dec,
    pub slash_window: u64,
    pub min_valid_per_window: Dec,
    /// Height of the last completed aggregation pass.
    pub last_avg_at_height: u64,
    /// Height each validator was last seen voting at; survives windows.
    pub validator_vote_last_seen: SMap<u64>,
    /// Stake weight per validator; last write wins, never removed.
    pub validator_weight: SMap<u64>,
    /// Hash of each validator's latest vote transaction, per window.
    pub validator_vote_last_hash: SMap<String>,
    /// Each validator's latest submitted amounts, per window.
    pub validator_vote_prices: SMap<Vec<Coin>>,
    /// Whether a stop signal has been observed.
    pub stopped: bool,
}

impl OracleActor {
    /// The current votes, by validator, at the view level.
    pub open spec fn prices_v(self) -> Seq<(Seq<char>, Seq<CoinV>)> {
        self.validator_vote_prices@
    }

    /// The recorded stake weights at the view level.
    pub open spec fn weights_v(self) -> Seq<(Seq<char>, u64)> {
        self.validator_weight@
    }

    /// The recorded vote hashes at the view level.
    pub open spec fn hashes_v(self) -> Seq<(Seq<char>, Seq<char>)> {
        self.validator_vote_last_hash@
    }

    /// The last-seen heights at the view level.
    pub open spec fn seen_v(self) -> Seq<(Seq<char>, u64)> {
        self.validator_vote_last_seen@
    }

    /// Engine well-formedness: maps have distinct keys, and every stored
    /// quantity is within the bounds that keep aggregation arithmetic
    /// free of overflow.
    pub open spec fn wf(self) -> bool {
        &&& self.validator_vote_prices.wf()
        &&& self.validator_vote_last_seen.wf()
        &&& self.validator_weight.wf()
        &&& self.validator_vote_last_hash.wf()
        &&& self.prices_v().len() <= MAX_VALIDATORS
        &&& forall|i: int|
            0 <= i < self.prices_v().len() ==> coins_bounded((#[trigger] self.prices_v()[i]).1)
        &&& forall|i: int|
            0 <= i < self.weights_v().len() ==> (#[trigger] self.weights_v()[i]).1 <= WEIGHT_MAX
        &&& 0 <= self.reward_band@ <= REWARD_BAND_MAX_UNITS as int
    }

    /// Build an engine from chain parameters, with empty tracking state.
    pub fn new(
        vote_period: u64,
        vote_threshold: Dec,
        reward_band: Dec,
        reward_distribution_window: u64,
        slash_fraction: Dec,
        slash_window: u64,
        min_valid_per_window: Dec,
    ) -> (r: OracleActor)
        requires
            0 <= reward_band@ <= REWARD_BAND_MAX_UNITS as int,
        ensures
            r.wf(),
            r.vote_period == vote_period,
            r.vote_threshold == vote_threshold,
            r.reward_band == reward_band,
            r.reward_distribution_window == reward_distribution_window,
            r.slash_fraction == slash_fraction,
            r.slash_window == slash_window,
            r.min_valid_per_window == min_valid_per_window,
            r.last_avg_at_height == 0,
            r.prices_v() == Seq::<(Seq<char>, Seq<CoinV>)>::empty(),
            r.seen_v() == Seq::<(Seq<char>, u64)>::empty(),
            r.weights_v() == Seq::<(Seq<char>, u64)>::empty(),
            r.hashes_v() == Seq::<(Seq<char>, Seq<char>)>::empty(),
            !r.stopped,
    {
        OracleActor {
            vote_period,
            vote_threshold,
            reward_band,
            reward_distribution_window,
            slash_fraction,
            slash_window,
            min_valid_per_window,
            last_avg_at_height: 0,
            validator_vote_last_seen: SMap::new(),
            validator_weight: SMap::new(),
            validator_vote_last_hash: SMap::new(),
            validator_vote_prices: SMap::new(),
            stopped: false,
        }
    }

    /// Observe a stop signal: the engine ceases processing.
    pub fn handle_stop(&mut self)
        ensures
            final(self).stopped,
            final(self).vote_period == old(self).vote_period,
            final(self).vote_threshold == old(self).vote_threshold,
            final(self).reward_band == old(self).reward_band,
            final(self).reward_distribution_window == old(self).reward_distribution_window,
            final(self).slash_fraction == old(self).slash_fraction,
            final(self).slash_window == old(self).slash_window,
            final(self).min_valid_per_window == old(self).min_valid_per_window,
            final(self).last_avg_at_height == old(self).last_avg_at_height,
            final(self).validator_vote_last_seen == old(self).validator_vote_last_seen,
            final(self).validator_weight == old(self).validator_weight,
            final(self).validator_vote_last_hash == old(self).validator_vote_last_hash,
            final(self).validator_vote_prices == old(self).validator_vote_prices,
    {
        self.stopped = true;
    }

    /// Run one aggregation pass at `height` over the current window's
    /// votes: per denom, count contributing validators and accumulate
    /// raw and stake-weighted sums; emit one abstain event per weighted
    /// validator with at least one amount at or below the threshold;
    /// then, per denom in first-contribution order, flag every
    /// validator whose first submitted amount for that denom deviates
    /// from the simple average by more than the reward band allows.
    /// Emits events; does not change engine state.
    #[verifier::rlimit(50)]
    pub fn do_price_averages(&self, height: u64) -> (r: Vec<OracleEmit>)
        requires
            self.wf(),
        ensures
            emits_view(r@) == price_average_events(
                self.prices_v(),
                self.weights_v(),
                self.hashes_v(),
                self.reward_band@,
                height,
            ),
    {
        let ghost pv = self.prices_v();
        let ghost wv = self.weights_v();
        let ghost hv = self.hashes_v();
        let ghost band = self.reward_band@;
        let mut out: Vec<OracleEmit> = Vec::new();
        let n = self.validator_vote_prices.len();
        if n == 0 {
            proof {
                assert(abstain_events(pv, wv, hv, height) =~= Seq::<OracleEmitV>::empty());
                assert(all_contrib_denoms(pv, wv) =~= Seq::<Seq<char>>::empty());
                assert(denom_order(pv, wv) =~= Seq::<Seq<char>>::empty());
                assert(drift_events(denom_order(pv, wv), pv, wv, hv, band, height)
                    =~= Seq::<OracleEmitV>::empty());
                assert(emits_view(out@) =~= price_average_events(pv, wv, hv, band, height));
            }
            return out;
        }
        let mut agg: SMap<AccCell> = SMap::new();
        proof {
            assert(pv.take(0) =~= Seq::<(Seq<char>, Seq<CoinV>)>::empty());
            assert(emits_view(out@) =~= abstain_events(pv.take(0), wv, hv, height));
            assert(all_contrib_denoms(pv.take(0), wv) =~= Seq::<Seq<char>>::empty());
            assert(keys_of(agg@) =~= denom_order(pv.take(0), wv));
        }
        let mut i: usize = 0;
        while i < n
            invariant
                self.wf(),
                0 <= i <= n,
                n == pv.len(),
                pv == self.prices_v(),
                wv == self.weights_v(),
                hv == self.hashes_v(),
                band == self.reward_band@,
                agg.wf(),
                keys_of(agg@) == denom_order(pv.take(i as int), wv),
                forall|l: int|
                    0 <= l < agg@.len() ==> (#[trigger] agg@[l]).1 == votes_acc(
                        pv.take(i as int),
                        wv,
                        agg@[l].0,
                    ),
                emits_view(out@) == abstain_events(pv.take(i as int), wv, hv, height),
            decreases n - i,
        {
            let entry = &self.validator_vote_prices.entries[i];
            proof {
                self.validator_vote_prices.lemma_entry_view(i as int);
            }
            let ghost addrv = pv[i as int].0;
            let ghost cvv = pv[i as int].1;
            proof {
                assert(entry.0@ == addrv);
                assert(entry.1.deep_view() == cvv);
                assert(coins_bounded(cvv));
                assert(pv.take(i + 1).drop_last() =~= pv.take(i as int));
                assert(pv.take(i + 1).last() == pv[i as int]);
            }
            let txh: Option<&String> = self.validator_vote_last_hash.get(entry.0.as_str());
            match self.validator_weight.get(entry.0.as_str()) {
                Some(wref) => {
                    let w: u64 = *wref;
                    proof {
                        assert(vget(wv, addrv) == Some(w));
                        lemma_vfind_is_first(wv, addrv);
                        assert(w == wv[vfind(wv, addrv)].1);
                        assert(w <= WEIGHT_MAX);
                    }
                    let coins: &Vec<Coin> = &entry.1;
                    let m = coins.len();
                    let mut denom_abstain: Vec<String> = Vec::new();
                    proof {
                        assert(cvv.len() == m);
                        assert forall|l: int| 0 <= l < m implies cvv[l] == coins@[l]@ by {
                            assert(cvv[l] == coins@[l].deep_view());
                        }
                        assert(cvv.take(0) =~= Seq::<CoinV>::empty());
                        assert(denom_abstain.deep_view() =~= abstain_denoms(cvv.take(0)));
                        assert(coin_denoms(cvv.take(0)) =~= Seq::<Seq<char>>::empty());
                        assert(all_contrib_denoms(pv.take(i as int), wv) + coin_denoms(
                            cvv.take(0),
                        ) =~= all_contrib_denoms(pv.take(i as int), wv));
                        assert forall|l: int| 0 <= l < agg@.len() implies (#[trigger] agg@[l]).1
                            == acc_of(
                            vote_contribs(pv.take(i as int), wv, agg@[l].0) + coin_contribs(
                                cvv.take(0),
                                w,
                                agg@[l].0,
                            ),
                        ) by {
                            assert(coin_contribs(cvv.take(0), w, agg@[l].0) =~= Seq::<(
                                int,
                                int,
                            )>::empty());
                            assert(vote_contribs(pv.take(i as int), wv, agg@[l].0)
                                + coin_contribs(cvv.take(0), w, agg@[l].0) =~= vote_contribs(
                                pv.take(i as int),
                                wv,
                                agg@[l].0,
                            ));
                        }
                    }
                    let mut j: usize = 0;
                    while j < m
                        invariant
                            self.wf(),
                            0 <= j <= m,
                            0 <= i < n == pv.len(),
                            pv == self.prices_v(),
                            wv == self.weights_v(),
                            hv == self.hashes_v(),
                            band == self.reward_band@,
                            pv[i as int].1 == cvv,
                            pv[i as int].0 == addrv,
                            m == cvv.len(),
                            coins_bounded(cvv),
                            forall|l: int| 0 <= l < m ==> cvv[l] == coins@[l]@,
                            coins@.len() == m,
                            vget(wv, addrv) == Some(w),
                            w <= WEIGHT_MAX,
                            agg.wf(),
                            keys_of(agg@) == dedup_first(
                                all_contrib_denoms(pv.take(i as int), wv) + coin_denoms(
                                    cvv.take(j as int),
                                ),
                            ),
                            forall|l: int|
                                0 <= l < agg@.len() ==> (#[trigger] agg@[l]).1 == acc_of(
                                    vote_contribs(pv.take(i as int), wv, agg@[l].0)
                                        + coin_contribs(cvv.take(j as int), w, agg@[l].0),
                                ),
                            denom_abstain.deep_view() == abstain_denoms(cvv.take(j as int)),
                            emits_view(out@) == abstain_events(pv.take(i as int), wv, hv, height),
                        decreases m - j,
                    {
                        let coin = &coins[j];
                        let units = coin.amount.units;
                        let ghost dv = cvv[j as int].denom;
                        proof {
                            assert(cvv[j as int] == coins@[j as int]@);
                            assert(coin.denom@ == dv);
                            assert(units == cvv[j as int].units);
                            assert(cvv.take(j + 1).drop_last() =~= cvv.take(j as int));
                            assert(cvv.take(j + 1).last() == cvv[j as int]);
                            assert(-(DEC_MAX_UNITS as int) <= units <= DEC_MAX_UNITS as int);
                        }
                        let ghost pre_votepart = vote_contribs(pv.take(i as int), wv, dv);
                        let ghost pre_coinpart = coin_contribs(cvv.take(j as int), w, dv);
                        let ghost combined = pre_votepart + pre_coinpart;
                        if units > SIGNIFICANCE_THRESHOLD_UNITS {
                            proof {
                                // length and magnitude bounds for the update
                                assert(forall|l: int|
                                    0 <= l < pv.take(i as int).len() ==> coins_bounded(
                                        (#[trigger] pv.take(i as int)[l]).1,
                                    ));
                                assert(forall|l: int|
                                    0 <= l < wv.len() ==> (#[trigger] wv[l]).1 <= WEIGHT_MAX);
                                lemma_vote_props(pv.take(i as int), wv, dv);
                                assert(forall|l: int|
                                    0 <= l < cvv.take(j as int).len() ==> -(DEC_MAX_UNITS as int)
                                        <= (#[trigger] cvv.take(j as int)[l]).units
                                        <= DEC_MAX_UNITS as int);
                                lemma_coin_props(cvv.take(j as int), w, dv);
                                assert(pre_votepart.len() <= i * MAX_VOTE_COINS);
                                assert(pre_coinpart.len() <= j);
                                assert(i * MAX_VOTE_COINS <= (MAX_VALIDATORS - 1)
                                    * MAX_VOTE_COINS) by (nonlinear_arith)
                                    requires
                                        0 <= i <= MAX_VALIDATORS - 1,
                                ;
                                assert(combined.len() + 1 <= MAX_VALIDATORS * MAX_VOTE_COINS);
                                assert forall|k: int| 0 <= k < combined.len() implies {
                                    &&& 0 <= (#[trigger] combined[k]).0 <= DEC_MAX_UNITS as int
                                    &&& 0 <= combined[k].1 <= WEIGHT_MAX as int
                                } by {
                                    if k < pre_votepart.len() {
                                        assert(combined[k] == pre_votepart[k]);
                                    } else {
                                        assert(combined[k] == pre_coinpart[k
                                            - pre_votepart.len()]);
                                    }
                                }
                                lemma_acc_bounds(
                                    combined,
                                    DEC_MAX_UNITS as int,
                                    WEIGHT_MAX as int,
                                );
                            }
                            let cur: Option<AccCell> = match agg.get(coin.denom.as_str()) {
                                Some(c) => Some(*c),
                                None => None,
                            };
                            let newcell: AccCell;
                            match cur {
                                Some(c) => {
                                    proof {
                                        lemma_vfind_is_first(agg@, dv);
                                        let fi = vfind(agg@, dv);
                                        assert(agg@[fi].0 == dv);
                                        assert(c.deep_view() == acc_of(combined));
                                        let len = combined.len() as int;
                                        assert(len * (DEC_MAX_UNITS as int) + DEC_MAX_UNITS as int
                                            <= (MAX_VALIDATORS * MAX_VOTE_COINS) as int * (
                                        DEC_MAX_UNITS as int)) by (nonlinear_arith)
                                            requires
                                                0 <= len,
                                                len + 1 <= MAX_VALIDATORS * MAX_VOTE_COINS,
                                        ;
                                        assert(len * (WEIGHT_MAX as int) + WEIGHT_MAX as int <= (
                                        MAX_VALIDATORS * MAX_VOTE_COINS) as int * (
                                        WEIGHT_MAX as int)) by (nonlinear_arith)
                                            requires
                                                0 <= len,
                                                len + 1 <= MAX_VALIDATORS * MAX_VOTE_COINS,
                                        ;
                                        assert(len * ((DEC_MAX_UNITS as int) * (WEIGHT_MAX as int))
                                            + (DEC_MAX_UNITS as int) * (WEIGHT_MAX as int) <= (
                                        MAX_VALIDATORS * MAX_VOTE_COINS) as int * ((
                                        DEC_MAX_UNITS as int) * (WEIGHT_MAX as int)))
                                            by (nonlinear_arith)
                                            requires
                                                0 <= len,
                                                len + 1 <= MAX_VALIDATORS * MAX_VOTE_COINS,
                                        ;
                                        assert(0 <= units * (w as i128) <= (DEC_MAX_UNITS as int)
                                            * (WEIGHT_MAX as int)) by (nonlinear_arith)
                                            requires
                                                0 < units <= DEC_MAX_UNITS as int,
                                                0 <= w <= WEIGHT_MAX,
                                        ;
                                    }
                                    newcell = AccCell {
                                        count: c.count + 1,
                                        weight: c.weight + (w as u128),
                                        sum: c.sum + units,
                                        wsum: c.wsum + units * (w as i128),
                                    };
                                },
                                None => {
                                    proof {
                                        lemma_keys_has(agg@, dv);
                                        lemma_dedup_membership(
                                            all_contrib_denoms(pv.take(i as int), wv)
                                                + coin_denoms(cvv.take(j as int)),
                                            dv,
                                        );
                                        lemma_contains_concat(
                                            all_contrib_denoms(pv.take(i as int), wv),
                                            coin_denoms(cvv.take(j as int)),
                                            dv,
                                        );
                                        assert(pre_votepart.len() == 0);
                                        assert(pre_coinpart.len() == 0);
                                        assert(combined =~= Seq::<(int, int)>::empty());
                                        assert(0 <= units * (w as i128) <= (DEC_MAX_UNITS as int)
                                            * (WEIGHT_MAX as int)) by (nonlinear_arith)
                                            requires
                                                0 < units <= DEC_MAX_UNITS as int,
                                                0 <= w <= WEIGHT_MAX,
                                        ;
                                    }
                                    newcell = AccCell {
                                        count: 1,
                                        weight: w as u128,
                                        sum: units,
                                        wsum: units * (w as i128),
                                    };
                                },
                            }
                            proof {
                                assert(newcell.deep_view() == acc_add(
                                    acc_of(combined),
                                    (units as int, w as int),
                                ));
                                assert(combined.push((units as int, w as int)).drop_last()
                                    =~= combined);
                                assert(acc_of(combined.push((units as int, w as int)))
                                    == acc_add(acc_of(combined), (units as int, w as int)));
                            }
                            let ghost pre_agg = agg@;
                            agg.insert(coin.denom.clone(), newcell);
                            proof {
                                lemma_vput_get(pre_agg, dv, newcell.deep_view(), dv);
                                lemma_vfind_is_first(pre_agg, dv);
                                let zc = all_contrib_denoms(pv.take(i as int), wv) + coin_denoms(
                                    cvv.take(j as int),
                                );
                                // the new coin contributes: denom lists gain dv at the end
                                assert(coin_denoms(cvv.take(j + 1)) == coin_denoms(
                                    cvv.take(j as int),
                                ) + seq![dv]);
                                assert(all_contrib_denoms(pv.take(i as int), wv) + coin_denoms(
                                    cvv.take(j + 1),
                                ) =~= zc.push(dv));
                                assert(zc.push(dv).drop_last() =~= zc);
                                // contributions gain one pair at the end, for dv only
                                assert(coin_contribs(cvv.take(j + 1), w, dv) == coin_contribs(
                                    cvv.take(j as int),
                                    w,
                                    dv,
                                ) + seq![(units as int, w as int)]);
                                assert(pre_votepart + coin_contribs(cvv.take(j + 1), w, dv)
                                    =~= combined.push((units as int, w as int)));
                                assert forall|k: Seq<char>| k != dv implies coin_contribs(
                                    cvv.take(j + 1),
                                    w,
                                    k,
                                ) =~= coin_contribs(cvv.take(j as int), w, k) by {
                                    assert(coin_contribs(cvv.take(j + 1), w, k) == coin_contribs(
                                        cvv.take(j as int),
                                        w,
                                        k,
                                    ) + Seq::<(int, int)>::empty());
                                }
                                if vhas(pre_agg, dv) {
                                    let fi = vfind(pre_agg, dv);
                                    assert(agg@ == pre_agg.update(
                                        fi,
                                        (dv, newcell.deep_view()),
                                    ));
                                    assert(keys_of(agg@) =~= keys_of(pre_agg));
                                    lemma_keys_has(pre_agg, dv);
                                    lemma_dedup_membership(zc, dv);
                                    assert(zc.contains(dv));
                                    assert(dedup_first(zc.push(dv)) == dedup_first(zc));
                                    assert forall|l: int| 0 <= l < agg@.len() implies (
                                    #[trigger] agg@[l]).1 == acc_of(
                                        vote_contribs(pv.take(i as int), wv, agg@[l].0)
                                            + coin_contribs(cvv.take(j + 1), w, agg@[l].0),
                                    ) by {
                                        if l == fi {
                                            assert(agg@[l].0 == dv);
                                            assert(agg@[l].1 == newcell.deep_view());
                                        } else {
                                            assert(agg@[l] == pre_agg[l]);
                                            assert(agg@[l].0 != dv);
                                        }
                                    }
                                } else {
                                    assert(agg@ == pre_agg.push((dv, newcell.deep_view())));
                                    assert(keys_of(agg@) =~= keys_of(pre_agg).push(dv));
                                    lemma_keys_has(pre_agg, dv);
                                    lemma_dedup_membership(zc, dv);
                                    assert(!zc.contains(dv));
                                    assert(dedup_first(zc.push(dv)) == dedup_first(zc).push(dv));
                                    assert forall|l: int| 0 <= l < agg@.len() implies (
                                    #[trigger] agg@[l]).1 == acc_of(
                                        vote_contribs(pv.take(i as int), wv, agg@[l].0)
                                            + coin_contribs(cvv.take(j + 1), w, agg@[l].0),
                                    ) by {
                                        if l == pre_agg.len() as int {
                                            assert(agg@[l].0 == dv);
                                            assert(agg@[l].1 == newcell.deep_view());
                                        } else {
                                            assert(agg@[l] == pre_agg[l]);
                                            assert(agg@[l].0 != dv);
                                        }
                                    }
                                }
                                // abstain list unchanged
                                assert(abstain_denoms(cvv.take(j + 1)) == abstain_denoms(
                                    cvv.take(j as int),
                                ) + Seq::<Seq<char>>::empty());
                                assert(abstain_denoms(cvv.take(j + 1)) =~= abstain_denoms(
                                    cvv.take(j as int),
                                ));
                            }
                        } else {
                            denom_abstain.push(coin.denom.clone());
                            proof {
                                assert(abstain_denoms(cvv.take(j + 1)) == abstain_denoms(
                                    cvv.take(j as int),
                                ) + seq![dv]);
                                assert(denom_abstain.deep_view() =~= abstain_denoms(
                                    cvv.take(j + 1),
                                ));
                                assert(coin_denoms(cvv.take(j + 1)) == coin_denoms(
                                    cvv.take(j as int),
                                ) + Seq::<Seq<char>>::empty());
                                assert(all_contrib_denoms(pv.take(i as int), wv) + coin_denoms(
                                    cvv.take(j + 1),
                                ) =~= all_contrib_denoms(pv.take(i as int), wv) + coin_denoms(
                                    cvv.take(j as int),
                                ));
                                assert forall|l: int| 0 <= l < agg@.len() implies (
                                #[trigger] agg@[l]).1 == acc_of(
                                    vote_contribs(pv.take(i as int), wv, agg@[l].0)
                                        + coin_contribs(cvv.take(j + 1), w, agg@[l].0),
                                ) by {
                                    assert(coin_contribs(cvv.take(j + 1), w, agg@[l].0)
                                        == coin_contribs(cvv.take(j as int), w, agg@[l].0)
                                        + Seq::<(int, int)>::empty());
                                    assert(coin_contribs(cvv.take(j + 1), w, agg@[l].0)
                                        =~= coin_contribs(cvv.take(j as int), w, agg@[l].0));
                                }
                            }
                        }
                        j = j + 1;
                    }
                    proof {
                        assert(cvv.take(m as int) =~= cvv);
                    }
                    if denom_abstain.len() > 0 {
                        let txhash: String = match txh {
                            Some(h) => h.clone(),
                            None => "-missing hash-".to_owned(),
                        };
                        proof {
                            assert(txhash@ == hash_or_missing(hv, addrv));
                        }
                        let ghost pre_out = out@;
                        let ev = OracleEmit::Abstain(
                            MessagePriceAbstain {
                                height,
                                operator_address: entry.0.clone(),
                                denoms: denom_abstain,
                                txhash,
                            },
                        );
                        proof {
                            assert(one_abstain(pv[i as int], wv, hv, height) == seq![
                                emit_view(ev),
                            ]);
                        }
                        out.push(ev);
                        proof {
                            assert(emits_view(out@) =~= emits_view(pre_out).push(emit_view(ev)));
                            assert(abstain_events(pv.take(i + 1), wv, hv, height)
                                == abstain_events(pv.take(i as int), wv, hv, height)
                                + one_abstain(pv[i as int], wv, hv, height));
                            assert(emits_view(out@) =~= abstain_events(
                                pv.take(i + 1),
                                wv,
                                hv,
                                height,
                            ));
                        }
                    } else {
                        proof {
                            assert(abstain_denoms(cvv).len() == 0);
                            assert(one_abstain(pv[i as int], wv, hv, height)
                                =~= Seq::<OracleEmitV>::empty());
                            assert(abstain_events(pv.take(i + 1), wv, hv, height)
                                =~= abstain_events(pv.take(i as int), wv, hv, height));
                        }
                    }
                    proof {
                        assert(all_contrib_denoms(pv.take(i + 1), wv) == all_contrib_denoms(
                            pv.take(i as int),
                            wv,
                        ) + coin_denoms(cvv));
                        assert(keys_of(agg@) == denom_order(pv.take(i + 1), wv));
                        assert forall|l: int| 0 <= l < agg@.len() implies (#[trigger] agg@[l]).1
                            == votes_acc(pv.take(i + 1), wv, agg@[l].0) by {
                            assert(vote_contribs(pv.take(i + 1), wv, agg@[l].0) == vote_contribs(
                                pv.take(i as int),
                                wv,
                                agg@[l].0,
                            ) + coin_contribs(cvv, w, agg@[l].0));
                        }
                    }
                },
                None => {
                    proof {
                        assert(vget(wv, addrv) is None);
                        assert(all_contrib_denoms(pv.take(i + 1), wv) == all_contrib_denoms(
                            pv.take(i as int),
                            wv,
                        ) + Seq::<Seq<char>>::empty());
                        assert(all_contrib_denoms(pv.take(i + 1), wv) =~= all_contrib_denoms(
                            pv.take(i as int),
                            wv,
                        ));
                        assert(keys_of(agg@) == denom_order(pv.take(i + 1), wv));
                        assert forall|l: int| 0 <= l < agg@.len() implies (#[trigger] agg@[l]).1
                            == votes_acc(pv.take(i + 1), wv, agg@[l].0) by {
                            assert(vote_contribs(pv.take(i + 1), wv, agg@[l].0) == vote_contribs(
                                pv.take(i as int),
                                wv,
                                agg@[l].0,
                            ) + Seq::<(int, int)>::empty());
                            assert(vote_contribs(pv.take(i + 1), wv, agg@[l].0) =~= vote_contribs(
                                pv.take(i as int),
                                wv,
                                agg@[l].0,
                            ));
                        }
                        assert(one_abstain(pv[i as int], wv, hv, height)
                            =~= Seq::<OracleEmitV>::empty());
                        assert(abstain_events(pv.take(i + 1), wv, hv, height) =~= abstain_events(
                            pv.take(i as int),
                            wv,
                            hv,
                            height,
                        ));
                    }
                },
            }
            i = i + 1;
        }
        proof {
            assert(pv.take(n as int) =~= pv);
        }
        // Second pass: averages and drift, per denom in first-contribution
        // order, per validator in map order.
        let ghost korder = denom_order(pv, wv);
        let am = agg.len();
        proof {
            assert(keys_of(agg@) == korder);
            assert(korder.len() == am);
            assert(korder.take(0) =~= Seq::<Seq<char>>::empty());
            assert(drift_events(korder.take(0), pv, wv, hv, band, height)
                =~= Seq::<OracleEmitV>::empty());
            assert(emits_view(out@) =~= abstain_events(pv, wv, hv, height) + drift_events(
                korder.take(0),
                pv,
                wv,
                hv,
                band,
                height,
            ));
        }
        let mut a: usize = 0;
        while a < am
            invariant
                self.wf(),
                0 <= a <= am,
                n == pv.len(),
                pv == self.prices_v(),
                wv == self.weights_v(),
                hv == self.hashes_v(),
                band == self.reward_band@,
                agg.wf(),
                am == agg@.len(),
                keys_of(agg@) == korder,
                korder == denom_order(pv, wv),
                korder.len() == am,
                forall|l: int|
                    0 <= l < agg@.len() ==> (#[trigger] agg@[l]).1 == votes_acc(
                        pv,
                        wv,
                        agg@[l].0,
                    ),
                emits_view(out@) == abstain_events(pv, wv, hv, height) + drift_events(
                    korder.take(a as int),
                    pv,
                    wv,
                    hv,
                    band,
                    height,
                ),
            decreases am - a,
        {
            let dstr: &String = &agg.entries[a].0;
            let cell: AccCell = agg.entries[a].1;
            let ghost dv = korder[a as int];
            proof {
                agg.lemma_entry_view(a as int);
                assert(agg@[a as int].0 == dv);
                assert(dstr@ == dv);
                assert(cell.deep_view() == votes_acc(pv, wv, dv));
                assert(korder.contains(dv));
                lemma_dedup_membership(all_contrib_denoms(pv, wv), dv);
                lemma_vote_props(pv, wv, dv);
                lemma_acc_bounds(
                    vote_contribs(pv, wv, dv),
                    DEC_MAX_UNITS as int,
                    WEIGHT_MAX as int,
                );
                assert(vote_contribs(pv, wv, dv).len() > 0);
                assert(pv.len() * MAX_VOTE_COINS <= MAX_VALIDATORS * MAX_VOTE_COINS)
                    by (nonlinear_arith)
                    requires
                        0 <= pv.len() <= MAX_VALIDATORS,
                ;
                let len = vote_contribs(pv, wv, dv).len() as int;
                assert(len * (DEC_MAX_UNITS as int) <= (MAX_VALIDATORS * MAX_VOTE_COINS) as int
                    * (DEC_MAX_UNITS as int)) by (nonlinear_arith)
                    requires
                        0 <= len <= MAX_VALIDATORS * MAX_VOTE_COINS,
                ;
                assert(len * (WEIGHT_MAX as int) <= (MAX_VALIDATORS * MAX_VOTE_COINS) as int * (
                WEIGHT_MAX as int)) by (nonlinear_arith)
                    requires
                        0 <= len <= MAX_VALIDATORS * MAX_VOTE_COINS,
                ;
                assert(len * ((DEC_MAX_UNITS as int) * (WEIGHT_MAX as int)) <= (MAX_VALIDATORS
                    * MAX_VOTE_COINS) as int * ((DEC_MAX_UNITS as int) * (WEIGHT_MAX as int)))
                    by (nonlinear_arith)
                    requires
                        0 <= len <= MAX_VALIDATORS * MAX_VOTE_COINS,
                ;
            }
            let count128 = cell.count as i128;
            let avg_units = cell.sum / count128;
            proof {
                let sumi = cell.sum as int;
                let cnti = cell.count as int;
                lemma_div_shrinks(sumi, cnti);
                assert(avg_units == avg_of(pv, wv, dv));
            }
            let wavg_units: i128 = if cell.weight > 0 {
                let wq = cell.wsum / (cell.weight as i128);
                proof {
                    lemma_div_shrinks(cell.wsum as int, cell.weight as int);
                }
                wq
            } else {
                0
            };
            proof {
                assert(wavg_units == wavg_of(pv, wv, dv));
            }
            proof {
                assert(0 <= avg_units * band <= (MAX_VALIDATORS * MAX_VOTE_COINS) as int * (
                DEC_MAX_UNITS as int) * (REWARD_BAND_MAX_UNITS as int)) by (nonlinear_arith)
                    requires
                        0 <= avg_units <= (MAX_VALIDATORS * MAX_VOTE_COINS) as int * (
                        DEC_MAX_UNITS as int),
                        0 <= band <= REWARD_BAND_MAX_UNITS as int,
                ;
            }
            let prod = avg_units * self.reward_band.units;
            let dmax = prod / DEC_ONE_UNITS;
            proof {
                lemma_div_shrinks(prod as int, DEC_ONE_UNITS as int);
                assert(dmax == dmax_of(pv, wv, band, dv));
                assert(pv.take(0) =~= Seq::<(Seq<char>, Seq<CoinV>)>::empty());
                assert(denom_drifts(pv.take(0), pv, wv, hv, band, height, dv)
                    =~= Seq::<OracleEmitV>::empty());
            }
            let mut v: usize = 0;
            while v < n
                invariant
                    self.wf(),
                    0 <= v <= n == pv.len(),
                    0 <= a < am == korder.len(),
                    pv == self.prices_v(),
                    wv == self.weights_v(),
                    hv == self.hashes_v(),
                    band == self.reward_band@,
                    dstr@ == dv,
                    korder[a as int] == dv,
                    avg_units == avg_of(pv, wv, dv),
                    wavg_units == wavg_of(pv, wv, dv),
                    dmax == dmax_of(pv, wv, band, dv),
                    0 <= avg_units <= (MAX_VALIDATORS * MAX_VOTE_COINS) as int * (
                    DEC_MAX_UNITS as int),
                    emits_view(out@) == abstain_events(pv, wv, hv, height) + drift_events(
                        korder.take(a as int),
                        pv,
                        wv,
                        hv,
                        band,
                        height,
                    ) + denom_drifts(pv.take(v as int), pv, wv, hv, band, height, dv),
                decreases n - v,
            {
                let ventry = &self.validator_vote_prices.entries[v];
                proof {
                    self.validator_vote_prices.lemma_entry_view(v as int);
                    assert(pv[v as int].0 == ventry.0@);
                    assert(pv[v as int].1 == ventry.1.deep_view());
                    assert(pv.take(v + 1).drop_last() =~= pv.take(v as int));
                    assert(pv.take(v + 1).last() == pv[v as int]);
                    assert(coins_bounded(pv[v as int].1));
                }
                let ghost pre_out = out@;
                let ghost done = abstain_events(pv, wv, hv, height) + drift_events(
                    korder.take(a as int),
                    pv,
                    wv,
                    hv,
                    band,
                    height,
                ) + denom_drifts(pv.take(v as int), pv, wv, hv, band, height, dv);
                match find_coin_exec(&ventry.1, dstr.as_str()) {
                    Some(c) => {
                        proof {
                            assert(find_coin(pv[v as int].1, dv) == Some(c@));
                            lemma_coin_idx_first(pv[v as int].1, dv);
                            assert(c@ == pv[v as int].1[coin_idx(pv[v as int].1, dv)]);
                            assert(-(DEC_MAX_UNITS as int) <= c@.units <= DEC_MAX_UNITS as int);
                        }
                        if c.amount.units > SIGNIFICANCE_THRESHOLD_UNITS {
                            let drift = c.amount.units - avg_units;
                            let drift_abs = if drift < 0 {
                                -drift
                            } else {
                                drift
                            };
                            proof {
                                assert(drift_abs as int == iabs(c@.units - avg_units as int));
                            }
                            if drift_abs > dmax {
                                let txhash: String = match self.validator_vote_last_hash.get(
                                    ventry.0.as_str(),
                                ) {
                                    Some(h) => h.clone(),
                                    None => "-missing hash-".to_owned(),
                                };
                                proof {
                                    assert(txhash@ == hash_or_missing(hv, pv[v as int].0));
                                }
                                let ev = OracleEmit::Drift(
                                    MessagePriceDrift {
                                        height,
                                        operator_address: ventry.0.clone(),
                                        denom: dstr.clone(),
                                        average: Dec::from_units(avg_units),
                                        weighted_average: Dec::from_units(wavg_units),
                                        submitted: c.amount,
                                        txhash,
                                    },
                                );
                                proof {
                                    assert(drift_one(
                                        pv[v as int],
                                        avg_of(pv, wv, dv),
                                        wavg_of(pv, wv, dv),
                                        dmax_of(pv, wv, band, dv),
                                        hv,
                                        height,
                                        dv,
                                    ) == seq![emit_view(ev)]);
                                }
                                out.push(ev);
                                proof {
                                    assert(emits_view(out@) =~= emits_view(pre_out).push(
                                        emit_view(ev),
                                    ));
                                    assert(emits_view(out@) =~= done + seq![emit_view(ev)]);
                                }
                            } else {
                                proof {
                                    assert(drift_one(
                                        pv[v as int],
                                        avg_of(pv, wv, dv),
                                        wavg_of(pv, wv, dv),
                                        dmax_of(pv, wv, band, dv),
                                        hv,
                                        height,
                                        dv,
                                    ) =~= Seq::<OracleEmitV>::empty());
                                    assert(emits_view(out@) =~= done + Seq::<
                                        OracleEmitV,
                                    >::empty());
                                }
                            }
                        } else {
                            proof {
                                assert(drift_one(
                                    pv[v as int],
                                    avg_of(pv, wv, dv),
                                    wavg_of(pv, wv, dv),
                                    dmax_of(pv, wv, band, dv),
                                    hv,
                                    height,
                                    dv,
                                ) =~= Seq::<OracleEmitV>::empty());
                                assert(emits_view(out@) =~= done + Seq::<OracleEmitV>::empty());
                            }
                        }
                    },
                    None => {
                        proof {
                            assert(find_coin(pv[v as int].1, dv) is None);
                            assert(drift_one(
                                pv[v as int],
                                avg_of(pv, wv, dv),
                                wavg_of(pv, wv, dv),
                                dmax_of(pv, wv, band, dv),
                                hv,
                                height,
                                dv,
                            ) =~= Seq::<OracleEmitV>::empty());
                            assert(emits_view(out@) =~= done + Seq::<OracleEmitV>::empty());
                        }
                    },
                }
                proof {
                    assert(denom_drifts(pv.take(v + 1), pv, wv, hv, band, height, dv)
                        == denom_drifts(pv.take(v as int), pv, wv, hv, band, height, dv)
                        + drift_one(
                        pv[v as int],
                        avg_of(pv, wv, dv),
                        wavg_of(pv, wv, dv),
                        dmax_of(pv, wv, band, dv),
                        hv,
                        height,
                        dv,
                    ));
                    assert(emits_view(out@) =~= abstain_events(pv, wv, hv, height) + drift_events(
                        korder.take(a as int),
                        pv,
                        wv,
                        hv,
                        band,
                        height,
                    ) + denom_drifts(pv.take(v + 1), pv, wv, hv, band, height, dv));
                }
                v = v + 1;
            }
            proof {
                assert(pv.take(n as int) =~= pv);
                assert(korder.take(a + 1).drop_last() =~= korder.take(a as int));
                assert(korder.take(a + 1).last() == korder[a as int]);
                assert(drift_events(korder.take(a + 1), pv, wv, hv, band, height) == drift_events(
                    korder.take(a as int),
                    pv,
                    wv,
                    hv,
                    band,
                    height,
                ) + denom_drifts(pv, pv, wv, hv, band, height, dv));
                assert(emits_view(out@) =~= abstain_events(pv, wv, hv, height) + drift_events(
                    korder.take(a + 1),
                    pv,
                    wv,
                    hv,
                    band,
                    height,
                ));
            }
            a = a + 1;
        }
        proof {
            assert(korder.take(am as int) =~= korder);
        }
        out
    }

    /// Consume one observed transaction.  Messages carrying the
    /// aggregate-vote discriminator replace that validator's vote
    /// record wholesale; then, if the transaction's height closes the
    /// window, an aggregation pass runs at that height: its abstain and
    /// drift events are followed by one warning per validator that
    /// missed a vote, stale validators are pruned from last-seen
    /// tracking, the per-window vote and hash maps are cleared, and the
    /// window advances.  A vote arriving exactly at the boundary is
    /// applied before the pass and so influences it.  After a stop
    /// signal the engine does nothing.
    #[verifier::rlimit(50)]
    pub fn handle_tx(&mut self, msg: &MessageTX) -> (r: Vec<OracleEmit>)
        requires
            old(self).wf(),
        ensures
            final(self).wf(),
            final(self).validator_weight == old(self).validator_weight,
            final(self).vote_period == old(self).vote_period,
            final(self).vote_threshold == old(self).vote_threshold,
            final(self).reward_band == old(self).reward_band,
            final(self).reward_distribution_window == old(self).reward_distribution_window,
            final(self).slash_fraction == old(self).slash_fraction,
            final(self).slash_window == old(self).slash_window,
            final(self).min_valid_per_window == old(self).min_valid_per_window,
            final(self).stopped == old(self).stopped,
            old(self).stopped ==> *final(self) == *old(self) && r@ == Seq::<OracleEmit>::empty(),
            !old(self).stopped ==> ({
                let st0 = VoteStateV {
                    prices: old(self).prices_v(),
                    seen: old(self).seen_v(),
                    hash: old(self).hashes_v(),
                };
                let st1 = tx_applied_state(st0, msg.tx);
                if window_due(old(self).last_avg_at_height, old(self).vote_period, msg.tx.height) {
                    &&& emits_view(r@) == price_average_events(
                        st1.prices,
                        old(self).weights_v(),
                        st1.hash,
                        old(self).reward_band@,
                        msg.tx.height,
                    ) + laggy_events(
                        st1.seen,
                        lag_height(old(self).last_avg_at_height, old(self).vote_period),
                        msg.tx.height,
                    )
                    &&& final(self).prices_v() == Seq::<(Seq<char>, Seq<CoinV>)>::empty()
                    &&& final(self).hashes_v() == Seq::<(Seq<char>, Seq<char>)>::empty()
                    &&& final(self).seen_v() == retained(st1.seen, msg.tx.height)
                    &&& final(self).last_avg_at_height == msg.tx.height
                } else {
                    &&& r@ == Seq::<OracleEmit>::empty()
                    &&& final(self).prices_v() == st1.prices
                    &&& final(self).seen_v() == st1.seen
                    &&& final(self).hashes_v() == st1.hash
                    &&& final(self).last_avg_at_height == old(self).last_avg_at_height
                }
            }),
    {
        let mut out: Vec<OracleEmit> = Vec::new();
        if self.stopped {
            return out;
        }
        let height = msg.tx.height;
        let ghost st0 = VoteStateV {
            prices: self.prices_v(),
            seen: self.seen_v(),
            hash: self.hashes_v(),
        };
        let ghost txhv = msg.tx.txhash@;
        if str_eq(msg.tx.tx.s_type.as_str(), "/cosmos.tx.v1beta1.Tx") {
            let tmsgs = &msg.tx.tx.body.messages;
            let mlen = tmsgs.len();
            let mut k: usize = 0;
            proof {
                assert(tmsgs@.take(0) =~= Seq::<TxMessage>::empty());
            }
            while k < mlen
                invariant
                    0 <= k <= mlen == tmsgs@.len(),
                    height == msg.tx.height,
                    txhv == msg.tx.txhash@,
                    self.wf(),
                    self.validator_weight == old(self).validator_weight,
                    forall|i: int|
                        0 <= i < old(self).weights_v().len() ==> (#[trigger] old(
                            self,
                        ).weights_v()[i]).1 <= WEIGHT_MAX,
                    self.vote_period == old(self).vote_period,
                    self.vote_threshold == old(self).vote_threshold,
                    self.reward_band == old(self).reward_band,
                    self.reward_distribution_window == old(self).reward_distribution_window,
                    self.slash_fraction == old(self).slash_fraction,
                    self.slash_window == old(self).slash_window,
                    self.min_valid_per_window == old(self).min_valid_per_window,
                    self.last_avg_at_height == old(self).last_avg_at_height,
                    self.stopped == old(self).stopped,
                    (VoteStateV {
                        prices: self.prices_v(),
                        seen: self.seen_v(),
                        hash: self.hashes_v(),
                    }) == apply_messages(st0, tmsgs@.take(k as int), height, txhv),
                decreases mlen - k,
            {
                let m = &tmsgs[k];
                let ghost pre = apply_messages(st0, tmsgs@.take(k as int), height, txhv);
                proof {
                    assert(tmsgs@.take(k + 1).drop_last() =~= tmsgs@.take(k as int));
                    assert(tmsgs@.take(k + 1).last() == tmsgs@[k as int]);
                    assert(apply_messages(st0, tmsgs@.take(k + 1), height, txhv) == apply_message(
                        pre,
                        tmsgs@[k as int],
                        height,
                        txhv,
                    ));
                }
                let mut applied = false;
                match &m.s_type {
                    Some(tag) => {
                        if str_eq(
                            tag.as_str(),
                            "/terra.oracle.v1beta1.MsgAggregateExchangeRateVote",
                        ) {
                            match &m.vote {
                                Some(vote) => {
                                    match parse_rates(vote.exchange_rates.as_str()) {
                                        Some(rates) => {
                                            if rates.len() <= MAX_VOTE_COINS {
                                                let present = self.validator_vote_prices.find(
                                                    vote.validator.as_str(),
                                                ) < self.validator_vote_prices.len();
                                                proof {
                                                    lemma_vfind_is_first(
                                                        self.prices_v(),
                                                        vote.validator@,
                                                    );
                                                    assert(present == vhas(
                                                        pre.prices,
                                                        vote.validator@,
                                                    ));
                                                }
                                                if present || self.validator_vote_prices.len()
                                                    < MAX_VALIDATORS {
                                                    proof {
                                                        assert(rates.deep_view() =~= coins_view(
                                                            rates@,
                                                        ));
                                                        assert(rates.deep_view() == rates_of(
                                                            vote.exchange_rates@,
                                                        ));
                                                        assert(coins_bounded(rates.deep_view()));
                                                    }
                                                    let ghost prev_prices = self.prices_v();
                                                    self.validator_vote_last_seen.insert(
                                                        vote.validator.clone(),
                                                        height,
                                                    );
                                                    self.validator_vote_prices.insert(
                                                        vote.validator.clone(),
                                                        rates,
                                                    );
                                                    self.validator_vote_last_hash.insert(
                                                        vote.validator.clone(),
                                                        msg.tx.txhash.clone(),
                                                    );
                                                    applied = true;
                                                    proof {
                                                        let put = self.prices_v();
                                                        lemma_vfind_is_first(
                                                            prev_prices,
                                                            vote.validator@,
                                                        );
                                                        if vhas(prev_prices, vote.validator@) {
                                                            assert(put == prev_prices.update(
                                                                vfind(
                                                                    prev_prices,
                                                                    vote.validator@,
                                                                ),
                                                                (
                                                                    vote.validator@,
                                                                    rates_of(
                                                                        vote.exchange_rates@,
                                                                    ),
                                                                ),
                                                            ));
                                                        } else {
                                                            assert(put == prev_prices.push(
                                                                (
                                                                    vote.validator@,
                                                                    rates_of(
                                                                        vote.exchange_rates@,
                                                                    ),
                                                                ),
                                                            ));
                                                        }
                                                        assert(put.len() <= MAX_VALIDATORS);
                                                        assert forall|l: int|
                                                            0 <= l < put.len() implies
                                                            coins_bounded(
                                                            (#[trigger] put[l]).1,
                                                        ) by {
                                                            if vhas(
                                                                prev_prices,
                                                                vote.validator@,
                                                            ) {
                                                                if l != vfind(
                                                                    prev_prices,
                                                                    vote.validator@,
                                                                ) {
                                                                    assert(put[l]
                                                                        == prev_prices[l]);
                                                                }
                                                            } else {
                                                                if l != prev_prices.len() {
                                                                    assert(put[l]
                                                                        == prev_prices[l]);
                                                                }
                                                            }
                                                        }
                                                    }
                                                }
                                            }
                                        },
                                        None => {},
                                    }
                                },
                                None => {},
                            }
                        }
                    },
                    None => {},
                }
                proof {
                    if applied {
                        assert(VoteStateV {
                            prices: self.prices_v(),
                            seen: self.seen_v(),
                            hash: self.hashes_v(),
                        } == apply_message(pre, tmsgs@[k as int], height, txhv));
                    } else {
                        assert(apply_message(pre, tmsgs@[k as int], height, txhv) == pre);
                    }
                    assert(self.validator_vote_prices.wf());
                    assert(self.validator_vote_last_seen.wf());
                    assert(self.validator_weight.wf());
                    assert(self.validator_vote_last_hash.wf());
                    assert(self.prices_v().len() <= MAX_VALIDATORS);
                    assert(forall|i: int|
                        0 <= i < self.prices_v().len() ==> coins_bounded(
                            (#[trigger] self.prices_v()[i]).1,
                        ));
                    assert(self.validator_weight == old(self).validator_weight);
                    assert(self.weights_v() == old(self).weights_v());
                    assert forall|i: int|
                        0 <= i < self.weights_v().len() implies (#[trigger] self.weights_v()[i]).1
                            <= WEIGHT_MAX by {
                        assert(self.weights_v()[i] == old(self).weights_v()[i]);
                    }
                    assert(self.wf());
                }
                k = k + 1;
            }
            proof {
                assert(tmsgs@.take(mlen as int) =~= tmsgs@);
            }
        }
        let ghost st1 = tx_applied_state(st0, msg.tx);
        proof {
            assert(VoteStateV {
                prices: self.prices_v(),
                seen: self.seen_v(),
                hash: self.hashes_v(),
            } == st1);
        }
        // Window boundary: the vote above is already applied, so it can
        // influence the pass it triggers.
        let due = self.vote_period <= height && self.last_avg_at_height <= height
            - self.vote_period;
        proof {
            assert(due == window_due(old(self).last_avg_at_height, old(self).vote_period, height));
        }
        if due {
            let mut events = self.do_price_averages(height);
            let ghost pass_events = emits_view(events@);
            out.append(&mut events);
            proof {
                assert(emits_view(out@) =~= pass_events);
            }
            let laggy_h: u64 = if self.vote_period < self.last_avg_at_height {
                self.last_avg_at_height - self.vote_period
            } else {
                0
            };
            let ghost lag = lag_height(old(self).last_avg_at_height, old(self).vote_period);
            proof {
                assert(laggy_h as int == lag);
                assert(st1.seen.take(0) =~= Seq::<(Seq<char>, u64)>::empty());
                assert(emits_view(out@) =~= pass_events + laggy_events(
                    st1.seen.take(0),
                    lag,
                    height,
                ));
            }
            let slen = self.validator_vote_last_seen.len();
            let mut l: usize = 0;
            while l < slen
                invariant
                    0 <= l <= slen == st1.seen.len(),
                    self.seen_v() == st1.seen,
                    lag == laggy_h as int,
                    emits_view(out@) == pass_events + laggy_events(
                        st1.seen.take(l as int),
                        lag,
                        height,
                    ),
                decreases slen - l,
            {
                let sentry = &self.validator_vote_last_seen.entries[l];
                proof {
                    self.validator_vote_last_seen.lemma_entry_view(l as int);
                    assert(st1.seen[l as int] == (sentry.0@, sentry.1));
                    assert(st1.seen.take(l + 1).drop_last() =~= st1.seen.take(l as int));
                    assert(st1.seen.take(l + 1).last() == st1.seen[l as int]);
                }
                let ghost pre_out = out@;
                if sentry.1 < laggy_h {
                    let digits = u64_to_dec_str(sentry.1);
                    let mut message = "Operator missed a vote? Last Seen:".to_owned();
                    message.append(digits.as_str());
                    let ev = OracleEmit::Validator(
                        MessageValidatorEvent {
                            height,
                            operator_address: sentry.0.clone(),
                            moniker: None,
                            event_type: ValidatorEventType::WARN,
                            message,
                            hash: None,
                        },
                    );
                    proof {
                        assert(emit_view(ev) == (OracleEmitV::ValidatorV {
                            height,
                            operator_address: st1.seen[l as int].0,
                            moniker: None,
                            event_type: ValidatorEventType::WARN,
                            message: missed_vote_message(st1.seen[l as int].1),
                            hash: None,
                        }));
                    }
                    out.push(ev);
                    proof {
                        assert(emits_view(out@) =~= emits_view(pre_out).push(emit_view(ev)));
                        assert(laggy_events(st1.seen.take(l + 1), lag, height) == laggy_events(
                            st1.seen.take(l as int),
                            lag,
                            height,
                        ) + seq![emit_view(ev)]);
                        assert(emits_view(out@) =~= pass_events + laggy_events(
                            st1.seen.take(l + 1),
                            lag,
                            height,
                        ));
                    }
                } else {
                    proof {
                        assert(laggy_events(st1.seen.take(l + 1), lag, height) == laggy_events(
                            st1.seen.take(l as int),
                            lag,
                            height,
                        ) + Seq::<OracleEmitV>::empty());
                        assert(laggy_events(st1.seen.take(l + 1), lag, height) =~= laggy_events(
                            st1.seen.take(l as int),
                            lag,
                            height,
                        ));
                    }
                }
                l = l + 1;
            }
            proof {
                assert(st1.seen.take(slen as int) =~= st1.seen);
            }
            // Staleness pruning: drop validators last seen more than
            // STALE_HORIZON blocks before this pass.
            let mut kept: SMap<u64> = SMap::new();
            proof {
                assert(st1.seen.take(0) =~= Seq::<(Seq<char>, u64)>::empty());
                assert(kept@ =~= retained(st1.seen.take(0), height));
            }
            let mut p: usize = 0;
            while p < slen
                invariant
                    0 <= p <= slen == st1.seen.len(),
                    self.seen_v() == st1.seen,
                    self.validator_vote_last_seen.wf(),
                    kept.wf(),
                    kept@ == retained(st1.seen.take(p as int), height),
                decreases slen - p,
            {
                let sentry = &self.validator_vote_last_seen.entries[p];
                proof {
                    self.validator_vote_last_seen.lemma_entry_view(p as int);
                    assert(st1.seen[p as int] == (sentry.0@, sentry.1));
                    assert(st1.seen.take(p + 1).drop_last() =~= st1.seen.take(p as int));
                    assert(st1.seen.take(p + 1).last() == st1.seen[p as int]);
                }
                if sentry.1 >= height || height - sentry.1 <= STALE_HORIZON {
                    let ghost pre_kept = kept@;
                    proof {
                        lemma_vfind_is_first(pre_kept, sentry.0@);
                        if vhas(pre_kept, sentry.0@) {
                            lemma_retained_has(st1.seen.take(p as int), height, sentry.0@);
                            lemma_vfind_is_first(st1.seen.take(p as int), sentry.0@);
                            let q = vfind(st1.seen.take(p as int), sentry.0@);
                            assert(st1.seen[q].0 == st1.seen[p as int].0);
                            assert(false);
                        }
                    }
                    kept.insert(sentry.0.clone(), sentry.1);
                    proof {
                        assert(kept@ =~= pre_kept.push((sentry.0@, sentry.1)));
                        assert(retained(st1.seen.take(p + 1), height) == retained(
                            st1.seen.take(p as int),
                            height,
                        ) + seq![st1.seen[p as int]]);
                        assert(kept@ =~= retained(st1.seen.take(p + 1), height));
                    }
                } else {
                    proof {
                        assert(retained(st1.seen.take(p + 1), height) == retained(
                            st1.seen.take(p as int),
                            height,
                        ) + Seq::<(Seq<char>, u64)>::empty());
                        assert(kept@ =~= retained(st1.seen.take(p + 1), height));
                    }
                }
                p = p + 1;
            }
            proof {
                assert(st1.seen.take(slen as int) =~= st1.seen);
            }
            self.validator_vote_last_seen = kept;
            self.validator_vote_prices = SMap::new();
            self.validator_vote_last_hash = SMap::new();
            self.last_avg_at_height = height;
            proof {
                lemma_retained_unique(st1.seen, height);
            }
        }
        out
    }

    /// Record a validator's staked total: last write wins, entries are
    /// never removed, and a weight of zero is valid.
    pub fn handle_staked_total(&mut self, msg: &MessageValidatorStakedTotal)
        requires
            old(self).wf(),
            msg.tokens <= WEIGHT_MAX,
        ensures
            final(self).wf(),
            final(self).weights_v() == vput(
                old(self).weights_v(),
                msg.operator_address@,
                msg.tokens,
            ),
            final(self).validator_vote_prices == old(self).validator_vote_prices,
            final(self).validator_vote_last_seen == old(self).validator_vote_last_seen,
            final(self).validator_vote_last_hash == old(self).validator_vote_last_hash,
            final(self).last_avg_at_height == old(self).last_avg_at_height,
            final(self).vote_period == old(self).vote_period,
            final(self).reward_band == old(self).reward_band,
            final(self).stopped == old(self).stopped,
    {
        proof {
            lemma_vfind_is_first(self.weights_v(), msg.operator_address@);
        }
        self.validator_weight.insert(msg.operator_address.clone(), msg.tokens);
        proof {
            let put = vput(old(self).weights_v(), msg.operator_address@, msg.tokens);
            assert forall|i: int| 0 <= i < put.len() implies (#[trigger] put[i]).1
                <= WEIGHT_MAX by {
                if vhas(old(self).weights_v(), msg.operator_address@) {
                    assert(put == old(self).weights_v().update(
                        vfind(old(self).weights_v(), msg.operator_address@),
                        (msg.operator_address@, msg.tokens),
                    ));
                } else {
                    assert(put == old(self).weights_v().push((msg.operator_address@, msg.tokens)));
                }
            }
        }
    }
}

} // verus!
