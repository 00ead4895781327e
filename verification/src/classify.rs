//! The event classifier: one decoded block-level event in, zero or one
//! typed domain event out, by a fixed dispatch table over the event's
//! type tag.

use vstd::prelude::*;
use vstd::string::{StringSliceAdditionalSpecFns, StrSliceExecFns};
use crate::coin::{coins_view, decimal_ok, decimal_units, rates_of, rates_ok, CoinV};
use crate::coin::{parse_decimal, parse_rates};
use crate::messages::{
    MessageBlockEventCommission, MessageBlockEventExchangeRate, MessageBlockEventLiveness,
    MessageBlockEventReward,
};
use crate::smap::{vget, SMap};
use crate::strutil::str_eq;
use crate::types::{attrs_entries, NewBlockEvent};

verus! {

/// A classified domain event.
#[derive(Clone, Debug)]
pub enum ClassifiedEvent {
    Reward(MessageBlockEventReward),
    Commission(MessageBlockEventCommission),
    Liveness(MessageBlockEventLiveness),
    ExchangeRate(MessageBlockEventExchangeRate),
}

/// The mathematical content of a classified event.
pub enum ClassifiedV {
    RewardV {
        height: u64,
        is_begin: bool,
        is_proposer: bool,
        validator: Seq<char>,
        amount: Seq<CoinV>,
    },
    CommissionV { height: u64, is_begin: bool, validator: Seq<char>, amount: Seq<CoinV> },
    LivenessV { height: u64, is_begin: bool, tendermint_address: Seq<char>, missed: usize },
    ExchangeRateV { height: u64, denom: Seq<char>, rate: int },
}

/// The view of a classified event.
pub open spec fn classified_view(e: ClassifiedEvent) -> ClassifiedV {
    match e {
        ClassifiedEvent::Reward(m) => ClassifiedV::RewardV {
            height: m.height,
            is_begin: m.is_begin,
            is_proposer: m.is_proposer,
            validator: m.validator@,
            amount: coins_view(m.amount@),
        },
        ClassifiedEvent::Commission(m) => ClassifiedV::CommissionV {
            height: m.height,
            is_begin: m.is_begin,
            validator: m.validator@,
            amount: coins_view(m.amount@),
        },
        ClassifiedEvent::Liveness(m) => ClassifiedV::LivenessV {
            height: m.height,
            is_begin: m.is_begin,
            tendermint_address: m.tendermint_address@,
            missed: m.missed,
        },
        ClassifiedEvent::ExchangeRate(m) => ClassifiedV::ExchangeRateV {
            height: m.height,
            denom: m.denom@,
            rate: m.exchange_rate@,
        },
    }
}

/// The value an attribute map holds under key `k`, when the key is
/// present with a value.
pub open spec fn kv(attrs: Seq<(Seq<char>, Option<Seq<char>>)>, k: Seq<char>) -> Option<
    Seq<char>,
> {
    match vget(attrs, k) {
        Some(ov) => ov,
        None => None,
    }
}

/// Look a key up in an attribute map; absent keys and keys without a
/// value both give `None`.
pub fn get_required_kv(hash_map: &SMap<Option<String>>, key: &str) -> (r: Option<String>)
    ensures
        match r {
            Some(v) => kv(hash_map@, key@) == Some(v@),
            None => kv(hash_map@, key@) is None,
        },
{
    match hash_map.get(key) {
        Some(ov) => match ov {
            Some(v) => Some(v.clone()),
            None => None,
        },
        None => None,
    }
}

/// Whether the string is one or more decimal digits.
pub open spec fn all_digits(s: Seq<char>) -> bool {
    s.len() > 0 && forall|i: int| 0 <= i < s.len() ==> '0' <= #[trigger] s[i] <= '9'
}

/// The number denoted by a digit string, most significant digit first.
pub open spec fn digits_val(s: Seq<char>) -> int
    decreases s.len(),
{
    if s.len() == 0 {
        0
    } else {
        digits_val(s.drop_last()) * 10 + (s.last() as int - 48)
    }
}

proof fn lemma_digits_val_nonneg(s: Seq<char>)
    requires
        forall|i: int| 0 <= i < s.len() ==> '0' <= #[trigger] s[i] <= '9',
    ensures
        digits_val(s) >= 0,
    decreases s.len(),
{
    if s.len() > 0 {
        lemma_digits_val_nonneg(s.drop_last());
    }
}

proof fn lemma_digits_val_prefix(s: Seq<char>, j: int)
    requires
        forall|i: int| 0 <= i < s.len() ==> '0' <= #[trigger] s[i] <= '9',
        0 <= j <= s.len(),
    ensures
        digits_val(s) >= digits_val(s.take(j)),
    decreases s.len() - j,
{
    if j < s.len() {
        lemma_digits_val_prefix(s, j + 1);
        lemma_digits_val_nonneg(s.take(j));
        assert(s.take(j + 1).drop_last() =~= s.take(j));
        assert(digits_val(s.take(j + 1)) == digits_val(s.take(j)) * 10 + (s[j] as int - 48));
        assert(digits_val(s.take(j)) * 10 >= digits_val(s.take(j))) by (nonlinear_arith)
            requires
                digits_val(s.take(j)) >= 0,
        ;
    } else {
        assert(s.take(j) =~= s);
    }
}

/// Parse a digit string as a `usize`; `None` when the string is empty,
/// holds a non-digit, or denotes a value too large for `usize`.
pub fn parse_usize_digits(s: &str) -> (r: Option<usize>)
    ensures
        match r {
            Some(v) => all_digits(s@) && v as int == digits_val(s@),
            None => !all_digits(s@) || digits_val(s@) > usize::MAX,
        },
{
    if !s.is_ascii() {
        proof {
            if all_digits(s@) {
                assert forall|i: int| 0 <= i < s@.len() implies '\0' <= #[trigger] s@[i]
                    <= '\u{7f}' by {
                    assert('0' <= s@[i] <= '9');
                }
                assert(vstd::utf8::is_ascii_chars(s@));
            }
        }
        return None;
    }
    let n = s.unicode_len();
    if n == 0 {
        return None;
    }
    let mut v: usize = 0;
    let mut i: usize = 0;
    while i < n
        invariant
            0 < n == s@.len(),
            0 <= i <= n,
            vstd::string::is_ascii(s),
            forall|j: int| 0 <= j < i ==> '0' <= #[trigger] s@[j] <= '9',
            v as int == digits_val(s@.take(i as int)),
        decreases n - i,
    {
        let b = s.get_ascii(i);
        if b < 48 || b > 57 {
            proof {
                assert(!('0' <= s@[i as int] <= '9'));
            }
            return None;
        }
        let d = (b - 48) as usize;
        proof {
            assert('0' <= s@[i as int] <= '9');
            assert(s@.take(i + 1).drop_last() =~= s@.take(i as int));
            assert(digits_val(s@.take(i + 1)) == digits_val(s@.take(i as int)) * 10 + (s@[i as int] as int
                - 48));
        }
        if v > (usize::MAX - d) / 10 {
            proof {
                let p = digits_val(s@.take(i + 1));
                assert(v as int > ((usize::MAX - d) as int) / 10);
                assert(v as int >= ((usize::MAX - d) as int) / 10 + 1);
                assert((((usize::MAX - d) as int) / 10 + 1) * 10 > (usize::MAX - d) as int)
                    by (nonlinear_arith)
                    requires
                        ((usize::MAX - d) as int) % 10 < 10,
                        (usize::MAX - d) as int >= 0,
                        ((usize::MAX - d) as int) / 10 * 10 + ((usize::MAX - d) as int) % 10 == (
                        usize::MAX - d) as int,
                ;
                assert(v as int * 10 >= (((usize::MAX - d) as int) / 10 + 1) * 10)
                    by (nonlinear_arith)
                    requires
                        v as int >= ((usize::MAX - d) as int) / 10 + 1,
                ;
                assert(p > usize::MAX);
                if all_digits(s@) {
                    lemma_digits_val_prefix(s@, i + 1);
                }
            }
            return None;
        }
        proof {
            assert(v as int <= ((usize::MAX - d) as int) / 10);
            assert(v as int * 10 <= (((usize::MAX - d) as int) / 10) * 10) by (nonlinear_arith)
                requires
                    v as int <= ((usize::MAX - d) as int) / 10,
            ;
            assert((((usize::MAX - d) as int) / 10) * 10 <= (usize::MAX - d) as int)
                by (nonlinear_arith)
                requires
                    ((usize::MAX - d) as int) % 10 >= 0,
                    ((usize::MAX - d) as int) / 10 * 10 + ((usize::MAX - d) as int) % 10 == (
                    usize::MAX - d) as int,
            ;
        }
        v = v * 10 + d;
        i = i + 1;
    }
    proof {
        assert(s@.take(n as int) =~= s@);
    }
    Some(v)
}

/// The missed-block count an optional attribute denotes: absent or
/// unparsable counts default to zero.
pub open spec fn missed_of(o: Option<Seq<char>>) -> usize {
    match o {
        None => 0usize,
        Some(s) => if all_digits(s) && digits_val(s) <= usize::MAX {
            digits_val(s) as usize
        } else {
            0usize
        },
    }
}

/// The classification table: which domain event, if any, an event with
/// this tag and these attributes produces.
pub open spec fn classify(
    height: u64,
    is_begin: bool,
    tag: Seq<char>,
    attrs: Seq<(Seq<char>, Option<Seq<char>>)>,
) -> Option<ClassifiedV> {
    if tag == "rewards"@ {
        classify_reward(height, is_begin, false, attrs)
    } else if tag == "proposer_reward"@ {
        classify_reward(height, is_begin, true, attrs)
    } else if tag == "commission"@ {
        classify_commission(height, is_begin, attrs)
    } else if tag == "liveness"@ {
        classify_liveness(height, is_begin, attrs)
    } else if tag == "exchange_rate_update"@ {
        classify_exchange_rate(height, attrs)
    } else {
        None
    }
}

/// Rewards and proposer rewards: validator required; a missing amount
/// is a legitimate zero case; a malformed amount drops the event.
pub open spec fn classify_reward(
    height: u64,
    is_begin: bool,
    is_proposer: bool,
    attrs: Seq<(Seq<char>, Option<Seq<char>>)>,
) -> Option<ClassifiedV> {
    match kv(attrs, "validator"@) {
        None => None,
        Some(validator) => match kv(attrs, "amount"@) {
            None => Some(
                ClassifiedV::RewardV {
                    height,
                    is_begin,
                    is_proposer,
                    validator,
                    amount: Seq::empty(),
                },
            ),
            Some(amount_str) => if rates_ok(amount_str) {
                Some(
                    ClassifiedV::RewardV {
                        height,
                        is_begin,
                        is_proposer,
                        validator,
                        amount: rates_of(amount_str),
                    },
                )
            } else {
                None
            },
        },
    }
}

/// Commission: validator required; missing amount is a zero case; a
/// malformed amount drops the event.
pub open spec fn classify_commission(
    height: u64,
    is_begin: bool,
    attrs: Seq<(Seq<char>, Option<Seq<char>>)>,
) -> Option<ClassifiedV> {
    match kv(attrs, "validator"@) {
        None => None,
        Some(validator) => match kv(attrs, "amount"@) {
            None => Some(
                ClassifiedV::CommissionV { height, is_begin, validator, amount: Seq::empty() },
            ),
            Some(amount_str) => if rates_ok(amount_str) {
                Some(
                    ClassifiedV::CommissionV {
                        height,
                        is_begin,
                        validator,
                        amount: rates_of(amount_str),
                    },
                )
            } else {
                None
            },
        },
    }
}

/// Liveness: address required; the missed-block count defaults to zero
/// when absent or unparsable.
pub open spec fn classify_liveness(
    height: u64,
    is_begin: bool,
    attrs: Seq<(Seq<char>, Option<Seq<char>>)>,
) -> Option<ClassifiedV> {
    match kv(attrs, "address"@) {
        None => None,
        Some(address) => Some(
            ClassifiedV::LivenessV {
                height,
                is_begin,
                tendermint_address: address,
                missed: missed_of(kv(attrs, "missed_blocks"@)),
            },
        ),
    }
}

/// Exchange-rate updates: denom and rate both required; an unparsable
/// rate is silently dropped.
pub open spec fn classify_exchange_rate(
    height: u64,
    attrs: Seq<(Seq<char>, Option<Seq<char>>)>,
) -> Option<ClassifiedV> {
    match kv(attrs, "denom"@) {
        None => None,
        Some(denom) => match kv(attrs, "exchange_rate"@) {
            None => None,
            Some(rate_str) => if decimal_ok(rate_str) {
                Some(ClassifiedV::ExchangeRateV { height, denom, rate: decimal_units(rate_str) })
            } else {
                None
            },
        },
    }
}

/// Classify one block-level event.
pub fn process_event(height: u64, is_begin: bool, event: &NewBlockEvent) -> (r: Option<
    ClassifiedEvent,
>)
    ensures
        match r {
            Some(e) => classify(height, is_begin, event.s_type@, attrs_entries(event.attributes@))
                == Some(classified_view(e)),
            None => classify(height, is_begin, event.s_type@, attrs_entries(event.attributes@))
                is None,
        },
{
    let attributes = event.attribute_map();
    let tag = event.s_type.as_str();
    if str_eq(tag, "rewards") {
        process_reward(height, is_begin, false, &attributes)
    } else if str_eq(tag, "proposer_reward") {
        process_reward(height, is_begin, true, &attributes)
    } else if str_eq(tag, "commission") {
        process_commission(height, is_begin, &attributes)
    } else if str_eq(tag, "liveness") {
        process_liveness(height, is_begin, &attributes)
    } else if str_eq(tag, "exchange_rate_update") {
        process_exchange_rate(height, &attributes)
    } else {
        None
    }
}

fn process_reward(height: u64, is_begin: bool, is_proposer: bool, attributes: &SMap<
    Option<String>,
>) -> (r: Option<ClassifiedEvent>)
    ensures
        match r {
            Some(e) => classify_reward(height, is_begin, is_proposer, attributes@) == Some(
                classified_view(e),
            ),
            None => classify_reward(height, is_begin, is_proposer, attributes@) is None,
        },
{
    let validator = match get_required_kv(attributes, "validator") {
        Some(v) => v,
        None => {
            return None;
        },
    };
    match get_required_kv(attributes, "amount") {
        Some(amount_str) => match parse_rates(amount_str.as_str()) {
            Some(coins) => Some(
                ClassifiedEvent::Reward(
                    MessageBlockEventReward {
                        height,
                        is_begin,
                        is_proposer,
                        validator,
                        amount: coins,
                    },
                ),
            ),
            None => None,
        },
        None => {
            let empty: Vec<crate::coin::Coin> = Vec::new();
            proof {
                assert(coins_view(empty@) =~= Seq::<CoinV>::empty());
            }
            Some(
                ClassifiedEvent::Reward(
                    MessageBlockEventReward {
                        height,
                        is_begin,
                        is_proposer,
                        validator,
                        amount: empty,
                    },
                ),
            )
        },
    }
}

fn process_commission(height: u64, is_begin: bool, attributes: &SMap<Option<String>>) -> (r:
    Option<ClassifiedEvent>)
    ensures
        match r {
            Some(e) => classify_commission(height, is_begin, attributes@) == Some(
                classified_view(e),
            ),
            None => classify_commission(height, is_begin, attributes@) is None,
        },
{
    let validator = match get_required_kv(attributes, "validator") {
        Some(v) => v,
        None => {
            return None;
        },
    };
    match get_required_kv(attributes, "amount") {
        Some(amount_str) => match parse_rates(amount_str.as_str()) {
            Some(coins) => Some(
                ClassifiedEvent::Commission(
                    MessageBlockEventCommission { height, is_begin, validator, amount: coins },
                ),
            ),
            None => None,
        },
        None => {
            let empty: Vec<crate::coin::Coin> = Vec::new();
            proof {
                assert(coins_view(empty@) =~= Seq::<CoinV>::empty());
            }
            Some(
                ClassifiedEvent::Commission(
                    MessageBlockEventCommission { height, is_begin, validator, amount: empty },
                ),
            )
        },
    }
}

fn process_liveness(height: u64, is_begin: bool, attributes: &SMap<Option<String>>) -> (r: Option<
    ClassifiedEvent,
>)
    ensures
        match r {
            Some(e) => classify_liveness(height, is_begin, attributes@) == Some(classified_view(e)),
            None => classify_liveness(height, is_begin, attributes@) is None,
        },
{
    let address = match get_required_kv(attributes, "address") {
        Some(v) => v,
        None => {
            return None;
        },
    };
    let missed: usize = match get_required_kv(attributes, "missed_blocks") {
        Some(mb_str) => match parse_usize_digits(mb_str.as_str()) {
            Some(v) => v,
            None => 0,
        },
        None => 0,
    };
    Some(
        ClassifiedEvent::Liveness(
            MessageBlockEventLiveness { height, is_begin, tendermint_address: address, missed },
        ),
    )
}

fn process_exchange_rate(height: u64, attributes: &SMap<Option<String>>) -> (r: Option<
    ClassifiedEvent,
>)
    ensures
        match r {
            Some(e) => classify_exchange_rate(height, attributes@) == Some(classified_view(e)),
            None => classify_exchange_rate(height, attributes@) is None,
        },
{
    let denom = match get_required_kv(attributes, "denom") {
        Some(v) => v,
        None => {
            return None;
        },
    };
    let rate_str = match get_required_kv(attributes, "exchange_rate") {
        Some(v) => v,
        None => {
            return None;
        },
    };
    match parse_decimal(rate_str.as_str()) {
        Some(rate) => Some(
            ClassifiedEvent::ExchangeRate(
                MessageBlockEventExchangeRate { height, denom, exchange_rate: rate },
            ),
        ),
        None => None,
    }
}

} // verus!
