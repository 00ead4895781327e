use constellation_observer::dec::Dec;
use constellation_observer::messages::{MessageTX, MessageValidatorStakedTotal};
use constellation_observer::oracle::{OracleActor, OracleEmit};
use constellation_observer::types::{
    AggregateVote, BlockTransaction, TxMessage, TxOuter, TXandResult,
};

fn engine(vote_period: u64, band_units: i128) -> OracleActor {
    OracleActor::new(
        vote_period,
        Dec::from_units(0),
        Dec::from_units(band_units),
        0,
        Dec::from_units(0),
        0,
        Dec::from_units(0),
    )
}

fn vote_tx(height: u64, txhash: &str, validator: &str, rates: &str) -> MessageTX {
    MessageTX {
        tx: TXandResult {
            height,
            txhash: txhash.to_string(),
            raw_log: String::new(),
            gas_wanted: 0,
            gas_used: 0,
            tx: TxOuter {
                s_type: "/cosmos.tx.v1beta1.Tx".to_string(),
                body: BlockTransaction {
                    messages: vec![TxMessage {
                        s_type: Some(
                            "/terra.oracle.v1beta1.MsgAggregateExchangeRateVote".to_string(),
                        ),
                        vote: Some(AggregateVote {
                            exchange_rates: rates.to_string(),
                            feeder: "feeder".to_string(),
                            salt: "ab".to_string(),
                            validator: validator.to_string(),
                        }),
                    }],
                    memo: String::new(),
                },
            },
            timestamp: String::new(),
        },
    }
}

fn empty_tx(height: u64) -> MessageTX {
    MessageTX {
        tx: TXandResult {
            height,
            txhash: "trigger".to_string(),
            raw_log: String::new(),
            gas_wanted: 0,
            gas_used: 0,
            tx: TxOuter {
                s_type: "/cosmos.tx.v1beta1.Tx".to_string(),
                body: BlockTransaction {
                    messages: vec![],
                    memo: String::new(),
                },
            },
            timestamp: String::new(),
        },
    }
}

fn weight(addr: &str, tokens: u64) -> MessageValidatorStakedTotal {
    MessageValidatorStakedTotal {
        height: 0,
        operator_address: addr.to_string(),
        tokens,
    }
}

#[test]
fn two_validator_drift_scenario() {
    // weights 1 and 3; votes 10.00 and 10.40 on uusd; band 0.01.
    let mut e = engine(5, 10_000_000); // 0.01
    e.handle_staked_total(&weight("val1", 1));
    e.handle_staked_total(&weight("val2", 3));
    let r1 = e.handle_tx(&vote_tx(1, "h1", "val1", "10.00uusd"));
    assert!(r1.is_empty());
    let r2 = e.handle_tx(&vote_tx(2, "h2", "val2", "10.40uusd"));
    assert!(r2.is_empty());
    let events = e.handle_tx(&empty_tx(5));
    let drifts: Vec<_> = events
        .iter()
        .filter_map(|ev| match ev {
            OracleEmit::Drift(d) => Some(d),
            _ => None,
        })
        .collect();
    // simple average 10.20, weighted average 10.30, max deviation 0.102
    let d1 = drifts
        .iter()
        .find(|d| d.operator_address == "val1")
        .expect("validator 1 must drift");
    assert_eq!(d1.denom, "uusd");
    assert_eq!(d1.average.units, 10_200_000_000);
    assert_eq!(d1.weighted_average.units, 10_300_000_000);
    assert_eq!(d1.submitted.units, 10_000_000_000);
    assert_eq!(d1.txhash, "h1");
    // validator 2 deviates by the same 0.20 > 0.102, so the algorithm
    // flags it as well.
    let d2 = drifts.iter().find(|d| d.operator_address == "val2").unwrap();
    assert_eq!(d2.submitted.units, 10_400_000_000);
    // weighted average lies between the smallest and largest submission
    assert!(d1.submitted.units <= d1.weighted_average.units);
    assert!(d1.weighted_average.units <= d2.submitted.units);
    // window reset: no votes remain, the window advanced
    assert_eq!(e.validator_vote_prices.entries.len(), 0);
    assert_eq!(e.validator_vote_last_hash.entries.len(), 0);
    assert_eq!(e.last_avg_at_height, 5);
    // last-seen survives the reset
    assert_eq!(e.validator_vote_last_seen.entries.len(), 2);
}

#[test]
fn abstain_scenario_ukrw() {
    let mut e = engine(5, 10_000_000);
    e.handle_staked_total(&weight("valA", 10));
    let r = e.handle_tx(&vote_tx(1, "ha", "valA", "0.0005ukrw"));
    assert!(r.is_empty());
    let events = e.handle_tx(&empty_tx(5));
    let abstains: Vec<_> = events
        .iter()
        .filter_map(|ev| match ev {
            OracleEmit::Abstain(a) => Some(a),
            _ => None,
        })
        .collect();
    assert_eq!(abstains.len(), 1);
    assert_eq!(abstains[0].operator_address, "valA");
    assert_eq!(abstains[0].denoms, vec!["ukrw".to_string()]);
    assert_eq!(abstains[0].txhash, "ha");
    // ukrw contributes to no average and no drift
    assert!(events.iter().all(|ev| !matches!(ev, OracleEmit::Drift(_))));
}

#[test]
fn boundary_equality_does_not_drift() {
    // both validators at the simple average: deviation 0 <= bound
    let mut e = engine(5, 10_000_000);
    e.handle_staked_total(&weight("v1", 2));
    e.handle_staked_total(&weight("v2", 2));
    e.handle_tx(&vote_tx(1, "h1", "v1", "10.00uusd"));
    e.handle_tx(&vote_tx(2, "h2", "v2", "10.00uusd"));
    let events = e.handle_tx(&empty_tx(5));
    assert!(events.iter().all(|ev| !matches!(ev, OracleEmit::Drift(_))));
}

#[test]
fn unweighted_validator_is_skipped() {
    let mut e = engine(5, 10_000_000);
    // no weight recorded: no abstain, no accumulation
    e.handle_tx(&vote_tx(1, "h1", "vX", "0.0001uusd"));
    let events = e.handle_tx(&empty_tx(5));
    assert!(events.is_empty());
}

#[test]
fn staleness_pruning_exact_horizon() {
    // last seen at height 1; pruned only when the pass height exceeds 101
    let mut e = engine(5, 10_000_000);
    e.handle_staked_total(&weight("old", 1));
    e.handle_tx(&vote_tx(1, "h1", "old", "1.0uusd"));
    e.handle_tx(&empty_tx(101)); // 101 <= 1 + 100: kept
    assert_eq!(e.validator_vote_last_seen.entries.len(), 1);
    assert_eq!(e.validator_vote_last_seen.entries[0].1, 1);
    e.handle_tx(&empty_tx(202)); // 202 > 1 + 100: dropped
    assert_eq!(e.validator_vote_last_seen.entries.len(), 0);
}

#[test]
fn missed_vote_warning() {
    let mut e = engine(5, 10_000_000);
    e.handle_staked_total(&weight("lag", 1));
    e.handle_tx(&vote_tx(1, "h1", "lag", "1.0uusd"));
    e.handle_tx(&empty_tx(10)); // pass at 10; last_avg becomes 10
    // no new vote; next pass at 20: lag height is 10 - 5 = 5 > 1
    let events = e.handle_tx(&empty_tx(20));
    let warns: Vec<_> = events
        .iter()
        .filter_map(|ev| match ev {
            OracleEmit::Validator(v) => Some(v),
            _ => None,
        })
        .collect();
    assert_eq!(warns.len(), 1);
    assert_eq!(warns[0].operator_address, "lag");
    assert_eq!(warns[0].message, "Operator missed a vote? Last Seen:1");
}

#[test]
fn later_vote_overwrites_earlier() {
    let mut e = engine(10, 10_000_000);
    e.handle_staked_total(&weight("v", 1));
    e.handle_tx(&vote_tx(1, "h1", "v", "10.00uusd"));
    e.handle_tx(&vote_tx(2, "h2", "v", "20.00uusd"));
    assert_eq!(e.validator_vote_prices.entries.len(), 1);
    assert_eq!(e.validator_vote_prices.entries[0].1[0].amount.units, 20_000_000_000);
    assert_eq!(e.validator_vote_last_hash.entries[0].1, "h2");
}

#[test]
fn malformed_vote_dropped_entirely() {
    let mut e = engine(10, 10_000_000);
    e.handle_staked_total(&weight("v", 1));
    e.handle_tx(&vote_tx(1, "h1", "v", "10.00uusd,badcoin"));
    assert_eq!(e.validator_vote_prices.entries.len(), 0);
}

#[test]
fn non_envelope_transaction_ignored_but_window_checked() {
    let mut e = engine(5, 10_000_000);
    e.handle_staked_total(&weight("v", 1));
    e.handle_tx(&vote_tx(1, "h1", "v", "3.0uusd"));
    let mut tx = vote_tx(7, "h7", "v", "9.0uusd");
    tx.tx.tx.s_type = "core/StdTx".to_string();
    // the vote inside is not scanned, but the boundary still triggers
    let events = e.handle_tx(&tx);
    assert!(!events.is_empty() || e.last_avg_at_height == 7);
    assert_eq!(e.last_avg_at_height, 7);
    assert_eq!(e.validator_vote_prices.entries.len(), 0);
}

#[test]
fn stopped_engine_ignores_transactions() {
    let mut e = engine(5, 10_000_000);
    e.handle_staked_total(&weight("v", 1));
    e.handle_stop();
    let events = e.handle_tx(&vote_tx(1, "h1", "v", "10.0uusd"));
    assert!(events.is_empty());
    assert_eq!(e.validator_vote_prices.entries.len(), 0);
}

#[test]
fn weight_updates_last_write_wins() {
    let mut e = engine(5, 10_000_000);
    e.handle_staked_total(&weight("v", 7));
    e.handle_staked_total(&weight("v", 9));
    assert_eq!(e.validator_weight.entries.len(), 1);
    assert_eq!(e.validator_weight.entries[0].1, 9);
}
