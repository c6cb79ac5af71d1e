use wallet_classifier::classifier::{contract_verdict, has_code, model_class, WalletClass};
use wallet_classifier::features::{extract_features, FeatureError, Features};
use wallet_classifier::registry::ExchangeRegistry;
use wallet_classifier::stats::{lower_median, max_of, spread_of};
use wallet_classifier::transaction::Transaction;

const ME: &str = "0xMe";

fn tx(timestamp: u64, from: &str, to: &str, value: u128) -> Transaction {
    Transaction {
        hash: Some(format!("0x{}", timestamp)),
        timestamp,
        from: from.to_owned(),
        to: to.to_owned(),
        value,
    }
}

fn no_exchanges() -> ExchangeRegistry {
    ExchangeRegistry::new(vec![])
}

fn features(address: &str, txs: &Vec<Transaction>, reg: &ExchangeRegistry) -> Features {
    match extract_features(address, txs, reg) {
        Ok(Some(f)) => f,
        _ => panic!("expected features"),
    }
}

#[test]
fn too_few_transactions_give_nothing() {
    let reg = no_exchanges();
    assert!(matches!(extract_features(ME, &vec![], &reg), Ok(None)));
    assert!(matches!(extract_features(ME, &vec![tx(5, "0xa", ME, 1)], &reg), Ok(None)));
}

#[test]
fn two_zero_transfers_from_one_counterparty() {
    let txs = vec![tx(2000, "0xPeer", ME, 0), tx(1000, "0xPeer", ME, 0)];
    let f = features(ME, &txs, &no_exchanges());
    assert_eq!(f.tx_count, 2);
    assert_eq!(f.intervals, vec![1000]);
    assert_eq!(f.value_total, Some(0));
    assert_eq!(f.value_median, 0);
    assert_eq!(f.value_max, 0);
    assert_eq!(f.values, vec![0, 0]);
    assert_eq!(f.start_ts, 1000);
    assert_eq!(f.end_ts, 2000);
    assert_eq!(f.incoming_count, 2);
    assert_eq!(f.outgoing_count, 0);
    assert_eq!(f.incoming_counterparties, 1);
    assert_eq!(f.value_spread, Some(0));
    assert_eq!(f.interval_spread, Some(0));
}

#[test]
fn address_reuse_is_rounded_down() {
    let mut txs = vec![];
    let peers = ["0xP1", "0xP2", "0xP3"];
    for i in 0..10u64 {
        txs.push(tx(10_000 - i, peers[(i % 3) as usize], ME, 1));
    }
    let f = features(ME, &txs, &no_exchanges());
    assert_eq!(f.incoming_counterparties + f.outgoing_counterparties, 3);
    assert_eq!(f.address_reuse, 0);
    assert_eq!(f.intervals.len(), 9);
}

#[test]
fn same_second_lifetime_is_one_day() {
    let txs = vec![tx(500, "0xa", ME, 1), tx(500, ME, "0xb", 2)];
    let f = features(ME, &txs, &no_exchanges());
    assert_eq!(f.lifetime_days, 1);
    assert_eq!(f.intervals, vec![0]);
}

#[test]
fn lifetime_counts_whole_days() {
    let txs = vec![tx(3 * 86400 + 10, "0xa", ME, 1), tx(0, ME, "0xb", 2)];
    assert_eq!(features(ME, &txs, &no_exchanges()).lifetime_days, 3);
}

#[test]
fn out_of_order_history_is_refused() {
    let txs = vec![tx(1000, "0xa", ME, 1), tx(2000, ME, "0xb", 2)];
    assert!(matches!(
        extract_features(ME, &txs, &no_exchanges()),
        Err(FeatureError::OutOfOrder)
    ));
}

#[test]
fn directions_fold_case_and_count_exchanges() {
    let reg = ExchangeRegistry::new(vec!["0xex".to_owned()]);
    let txs = vec![
        tx(400, "0xEX", "0xME", 10),
        tx(300, "0xme", "0xEx", 20),
        tx(200, "0xme", "0xother", 30),
        tx(100, "0xother", "0xme", 40),
    ];
    let f = features("0xME", &txs, &reg);
    assert_eq!(f.incoming_count, 2);
    assert_eq!(f.outgoing_count, 2);
    assert_eq!(f.outgoing_denominator, 2);
    assert_eq!(f.exchange_denominator, 2);
    assert_eq!(f.incoming_counterparties, 2);
    assert_eq!(f.outgoing_counterparties, 2);
    assert_eq!(f.address_reuse, 1);
    assert_eq!(f.incoming_volume, Some(50));
    assert_eq!(f.outgoing_volume, Some(50));
    assert_eq!(f.value_total, Some(100));
    assert_eq!(f.value_median, 20);
    assert_eq!(f.value_max, 40);
    assert_eq!(f.intervals, vec![100, 100, 100]);
}

#[test]
fn denominators_floor_at_one() {
    let txs = vec![tx(20, "0xa", ME, 1), tx(10, "0xb", ME, 1)];
    let f = features(ME, &txs, &no_exchanges());
    assert_eq!(f.outgoing_denominator, 1);
    assert_eq!(f.exchange_denominator, 1);
}

#[test]
fn volume_overflow_is_reported() {
    let txs = vec![tx(20, "0xa", ME, u128::MAX), tx(10, "0xb", ME, 1)];
    let f = features(ME, &txs, &no_exchanges());
    assert_eq!(f.incoming_volume, None);
    assert_eq!(f.value_total, None);
    assert_eq!(f.value_max, u128::MAX);
}

#[test]
fn exchange_listing_does_not_decide_the_class() {
    let reg = ExchangeRegistry::new(vec!["0xme".to_owned(), "0xex".to_owned()]);
    assert!(reg.is_exchange_owned("0xme"));
    assert!(!reg.is_exchange_owned("0xME"));
    let txs = vec![tx(20, "0xex", ME, 1), tx(10, ME, "0xex", 1)];
    let f = features(ME, &txs, &reg);
    assert_eq!(f.exchange_denominator, 2);
    assert!(matches!(model_class(3), Some(WalletClass::Customer)));
}

#[test]
fn statistics() {
    assert_eq!(lower_median(&vec![5, 1, 3]), 3);
    assert_eq!(lower_median(&vec![4, 1, 3, 2]), 2);
    assert_eq!(lower_median(&vec![7, 7, 7, 7]), 7);
    assert_eq!(lower_median(&vec![9]), 9);
    assert_eq!(max_of(&vec![3, 9, 2]), 9);
}

#[test]
fn contract_accounts_short_circuit() {
    assert!(matches!(contract_verdict("0x6080604052"), Some(WalletClass::Contract)));
    assert!(contract_verdict("0x").is_none());
    assert!(contract_verdict("0x0").is_none());
    assert!(contract_verdict("").is_none());
    assert!(!has_code(""));
    assert!(has_code("0x00"));
    assert!(!has_code("0x"));
}

#[test]
fn model_positions_map_to_classes() {
    assert!(matches!(model_class(0), Some(WalletClass::Exchange { hot: false })));
    assert!(matches!(model_class(1), Some(WalletClass::Exchange { hot: true })));
    assert!(matches!(model_class(2), Some(WalletClass::MevBot)));
    assert!(model_class(4).is_none());
}

#[test]
fn class_labels() {
    assert_eq!(WalletClass::Customer.label(), "customer");
    assert_eq!(WalletClass::MevBot.label(), "mev bot");
    assert_eq!(WalletClass::Exchange { hot: true }.label(), "hot exchange");
    assert_eq!(WalletClass::Exchange { hot: false }.label(), "cold exchange");
    assert_eq!(WalletClass::Contract.label(), "contract");
}

#[test]
fn constant_list_has_zero_spread() {
    assert_eq!(spread_of(&vec![7, 7, 7]), Some(0));
    assert_eq!(spread_of(&vec![0, 0]), Some(0));
}

#[test]
fn spread_is_exact() {
    // population variance of 1, 2, 3 is 2/3: spread 3 * 14 - 6 * 6 = 6
    assert_eq!(spread_of(&vec![1, 2, 3]), Some(6));
    assert_eq!(spread_of(&vec![]), Some(0));
    assert_eq!(spread_of(&vec![u128::MAX, 1]), None);
}

#[test]
fn spread_of_large_amounts_is_exact() {
    let ether: u128 = 1_000_000_000_000_000_000;
    assert_eq!(spread_of(&vec![ether; 20]), Some(0));
    // one pair differing by 2: spread 2 * (a² + (a+2)²) - (2a+2)² = 4
    assert_eq!(spread_of(&vec![ether, ether + 2]), Some(4));
    let txs: Vec<Transaction> = (0..25u64).map(|i| tx(1000 - i, "0xa", ME, 3 * ether)).collect();
    assert_eq!(features(ME, &txs, &no_exchanges()).value_spread, Some(0));
}
