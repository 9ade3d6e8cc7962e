use bank::amount::Amount;
use bank::bank::Bank;
use bank::ledger::Ledger;
use bank::transaction::{Tx, TxType};

fn rec(type_: TxType, client: u16, tx: u32, value: i64) -> Tx {
    Tx { type_, client, tx, amount: Amount { value }, disputed: false }
}

fn amt(s: &str) -> i64 {
    Amount::from_decimal_str(s).value
}

#[test]
fn moves_only_sum_skips_overdrafts() {
    let mut l = Ledger::new();
    rec(TxType::Deposit, 1, 1, 100).process(&mut l);
    rec(TxType::Deposit, 1, 2, 50).process(&mut l);
    rec(TxType::Withdrawal, 1, 3, 200).process(&mut l);
    rec(TxType::Withdrawal, 1, 4, 120).process(&mut l);
    rec(TxType::Deposit, 2, 5, 7).process(&mut l);
    let a = l.get_account(1).unwrap();
    assert_eq!(a.available.value, 30);
    assert_eq!(a.held.value, 0);
    assert!(!a.locked);
    assert_eq!(l.get_account(2).unwrap().available.value, 7);
    assert_eq!(l.transaction_count(), 5);
}

#[test]
fn dispute_then_chargeback_locks() {
    let mut l = Ledger::new();
    rec(TxType::Deposit, 1, 1, 40).process(&mut l);
    rec(TxType::Deposit, 1, 2, 10).process(&mut l);
    rec(TxType::Dispute, 1, 1, 0).process(&mut l);
    assert_eq!(l.get_account(1).unwrap().held.value, 40);
    assert_eq!(l.get_account(1).unwrap().available.value, 10);
    rec(TxType::Chargeback, 1, 1, 0).process(&mut l);
    let a = l.get_account(1).unwrap();
    assert_eq!(a.held.value, 0);
    assert_eq!(a.available.value, 10);
    assert!(a.locked);
    // the stored record keeps its disputed flag
    assert!(l.get_stored_transaction(1).unwrap().disputed);
    rec(TxType::Withdrawal, 1, 3, 5).process(&mut l);
    rec(TxType::Deposit, 1, 4, 5).process(&mut l);
    assert_eq!(l.get_account(1).unwrap(), a);
    assert_eq!(l.transaction_count(), 2);
}

#[test]
fn dispute_then_resolve_restores() {
    let mut l = Ledger::new();
    rec(TxType::Deposit, 1, 1, 25).process(&mut l);
    rec(TxType::Dispute, 1, 1, 0).process(&mut l);
    rec(TxType::Resolve, 1, 1, 0).process(&mut l);
    let a = l.get_account(1).unwrap();
    assert_eq!(a.available.value, 25);
    assert_eq!(a.held.value, 0);
    assert!(!l.get_stored_transaction(1).unwrap().disputed);
    rec(TxType::Resolve, 1, 1, 0).process(&mut l);
    assert_eq!(l.get_account(1).unwrap(), a);
}

#[test]
fn dispute_of_unknown_id_changes_nothing() {
    let mut l = Ledger::new();
    rec(TxType::Deposit, 1, 1, 25).process(&mut l);
    rec(TxType::Dispute, 1, 9, 0).process(&mut l);
    let a = l.get_account(1).unwrap();
    assert_eq!(a.available.value, 25);
    assert_eq!(a.held.value, 0);
    assert!(!l.get_stored_transaction(1).unwrap().disputed);
    // a client first seen in such a dispute gets an empty account
    rec(TxType::Dispute, 3, 9, 0).process(&mut l);
    let b = l.get_account(3).unwrap();
    assert_eq!(b.available.value, 0);
    assert_eq!(b.held.value, 0);
    assert_eq!(l.transaction_count(), 1);
}

#[test]
fn double_dispute_changes_nothing() {
    let mut l = Ledger::new();
    rec(TxType::Deposit, 1, 1, 25).process(&mut l);
    rec(TxType::Dispute, 1, 1, 0).process(&mut l);
    rec(TxType::Dispute, 1, 1, 0).process(&mut l);
    let a = l.get_account(1).unwrap();
    assert_eq!(a.available.value, 0);
    assert_eq!(a.held.value, 25);
}

#[test]
fn resolve_and_chargeback_need_live_dispute() {
    let mut l = Ledger::new();
    rec(TxType::Deposit, 1, 1, 25).process(&mut l);
    rec(TxType::Resolve, 1, 1, 0).process(&mut l);
    rec(TxType::Chargeback, 1, 1, 0).process(&mut l);
    let a = l.get_account(1).unwrap();
    assert_eq!(a.available.value, 25);
    assert!(!a.locked);
}

#[test]
fn dispute_applies_to_disputing_client() {
    let mut l = Ledger::new();
    rec(TxType::Deposit, 1, 1, 25).process(&mut l);
    rec(TxType::Dispute, 2, 1, 0).process(&mut l);
    assert_eq!(l.get_account(1).unwrap().available.value, 25);
    assert_eq!(l.get_account(2).unwrap().available.value, -25);
    assert_eq!(l.get_account(2).unwrap().held.value, 25);
}

#[test]
fn overflowing_deposit_is_ignored() {
    let mut l = Ledger::new();
    rec(TxType::Deposit, 1, 1, i64::MAX).process(&mut l);
    rec(TxType::Deposit, 1, 2, 1).process(&mut l);
    assert_eq!(l.get_account(1).unwrap().available.value, i64::MAX);
    assert_eq!(l.transaction_count(), 2);
}

#[test]
fn scenario_withdrawal_during_dispute() {
    let bank = Bank::new();
    let _ = bank.apply(rec(TxType::Deposit, 1, 1, amt("3.0")));
    let _ = bank.apply(rec(TxType::Dispute, 1, 1, 0));
    let _ = bank.apply(rec(TxType::Withdrawal, 1, 2, amt("3.0")));
    let a = bank.get_account(1).unwrap();
    assert_eq!(a.available.to_decimal_string(), "0.0000");
    assert_eq!(a.held.to_decimal_string(), "3.0000");
    assert!(!a.locked);
}

#[test]
fn scenario_deposit_after_chargeback() {
    let bank = Bank::new();
    let _ = bank.apply(rec(TxType::Deposit, 1, 1, amt("5.0")));
    let _ = bank.apply(rec(TxType::Dispute, 1, 1, 0));
    let _ = bank.apply(rec(TxType::Chargeback, 1, 1, 0));
    let _ = bank.apply(rec(TxType::Deposit, 1, 2, amt("1.0")));
    let a = bank.get_account(1).unwrap();
    assert_eq!(a.available.to_decimal_string(), "0.0000");
    assert_eq!(a.held.to_decimal_string(), "0.0000");
    assert!(a.locked);
    assert!(bank.get_stored_transaction(2).is_none());
}

#[test]
fn amount_text_round_trip() {
    assert_eq!(amt("5.1234"), 51234);
    assert_eq!(Amount { value: 51234 }.to_decimal_string(), "5.1234");
    assert_eq!(Amount::from_decimal_str("12").to_decimal_string(), "12.0000");
    assert_eq!(Amount::from_decimal_str("-0.5").to_decimal_string(), "-0.5000");
    assert_eq!(Amount::from_decimal_str("+7.25").to_decimal_string(), "7.2500");
    assert_eq!(Amount::from_decimal_str(".5").to_decimal_string(), "0.5000");
    assert_eq!(Amount { value: 0 }.to_decimal_bytes(), b"0.0000".to_vec());
}

#[test]
fn amount_rounds_half_away_from_zero() {
    assert_eq!(amt("1.00005"), 10001);
    assert_eq!(amt("1.00004999"), 10000);
    assert_eq!(amt("-1.00005"), -10001);
    assert_eq!(amt("0.99999"), 10000);
}

#[test]
fn amount_falls_back_to_zero() {
    assert_eq!(amt(""), 0);
    assert_eq!(amt("."), 0);
    assert_eq!(amt("-"), 0);
    assert_eq!(amt("abc"), 0);
    assert_eq!(amt("1.2.3"), 0);
    assert_eq!(amt("1e3"), 0);
    assert_eq!(amt("99999999999999999999"), 0);
}

#[test]
fn amount_extremes() {
    assert_eq!(amt("922337203685477.5807"), i64::MAX);
    assert_eq!(amt("922337203685477.5808"), 0);
    assert_eq!(amt("-922337203685477.5808"), i64::MIN);
    assert_eq!(Amount { value: i64::MIN }.to_decimal_string(), "-922337203685477.5808");
    assert_eq!(Amount { value: -1 }.to_decimal_string(), "-0.0001");
}

#[test]
fn kinds_by_name() {
    assert_eq!(TxType::from_name("deposit"), Some(TxType::Deposit));
    assert_eq!(TxType::from_name("withdrawal"), Some(TxType::Withdrawal));
    assert_eq!(TxType::from_name("dispute"), Some(TxType::Dispute));
    assert_eq!(TxType::from_name("resolve"), Some(TxType::Resolve));
    assert_eq!(TxType::from_name("chargeback"), Some(TxType::Chargeback));
    assert_eq!(TxType::from_name("Deposit"), None);
    assert_eq!(TxType::from_name("refund"), None);
}

#[test]
fn rows_to_records() {
    let t = Tx::from_row("dispute", 4, 8, None).unwrap();
    assert_eq!(t, rec(TxType::Dispute, 4, 8, 0));
    let d = Tx::from_row("withdrawal", 4, 9, Some("2.5")).unwrap();
    assert_eq!(d, rec(TxType::Withdrawal, 4, 9, 25000));
    assert!(Tx::from_row("transfer", 4, 9, Some("2.5")).is_none());
}

#[test]
fn snapshot_sorted_with_totals() {
    let mut l = Ledger::new();
    rec(TxType::Deposit, 9, 1, 30).process(&mut l);
    rec(TxType::Deposit, 2, 2, 10).process(&mut l);
    rec(TxType::Dispute, 9, 1, 0).process(&mut l);
    let s = l.snapshot_accounts();
    assert_eq!(s.len(), 2);
    assert_eq!(s[0].client, 2);
    assert_eq!(s[0].total.value, 10);
    assert_eq!(s[1].client, 9);
    assert_eq!(s[1].available.value, 0);
    assert_eq!(s[1].held.value, 30);
    assert_eq!(s[1].total.value, 30);
}

#[test]
fn shared_handles_see_each_other() {
    let bank = Bank::new();
    let other = Bank::new_for_tokio(&bank);
    let _ = other.apply(rec(TxType::Deposit, 5, 1, 12));
    let s = bank.snapshot_accounts();
    assert_eq!(s.len(), 1);
    assert_eq!(s[0].client, 5);
    assert_eq!(s[0].total.value, 12);
    assert_eq!(bank.transaction_count(), 1);
}

#[test]
fn stored_record_starts_undisputed() {
    let mut l = Ledger::new();
    let mut t = rec(TxType::Deposit, 1, 1, 25);
    t.disputed = true;
    t.process(&mut l);
    assert!(!l.get_stored_transaction(1).unwrap().disputed);
    rec(TxType::Resolve, 1, 1, 0).process(&mut l);
    assert_eq!(l.get_account(1).unwrap().available.value, 25);
    assert_eq!(l.get_account(1).unwrap().held.value, 0);
}

#[test]
fn total_held_to_i64_range() {
    let mut l = Ledger::new();
    rec(TxType::Deposit, 1, 1, i64::MAX).process(&mut l);
    rec(TxType::Dispute, 1, 1, 0).process(&mut l);
    rec(TxType::Deposit, 1, 2, 10).process(&mut l);
    let a = l.get_account(1).unwrap();
    assert_eq!(a.available.value, 10);
    assert_eq!(a.held.value, i64::MAX);
    let s = l.snapshot_accounts();
    assert_eq!(s[0].total.value, i64::MAX);
}
