// End-to-end tests of the transaction-processing engine. Amounts are
// fixed-point integers counting ten-thousandths of a currency unit, so
// 50000 stands for 5.0000.

use payments_engine::engine::{run, RunError};
use payments_engine::entities::{Client, Operation, Transaction};

fn tx(operation: Operation, client_id: u16, tx_id: u32, amount: i64) -> Transaction {
    Transaction { operation, client_id, tx_id, amount }
}

fn run_ok(records: Vec<Transaction>) -> Vec<Client> {
    run(&records).unwrap()
}

fn client(out: &[Client], id: u16) -> &Client {
    out.iter().find(|c| c.client_id() == id).expect("client missing from output")
}

#[test]
fn deposit_dispute_resolve_restores_available() {
    let out = run_ok(vec![
        tx(Operation::Deposit, 1, 1, 50000),
        tx(Operation::Dispute, 1, 1, 0),
        tx(Operation::Resolve, 1, 1, 0),
    ]);
    assert_eq!(out.len(), 1);
    let c = client(&out, 1);
    assert_eq!(c.available(), 50000);
    assert_eq!(c.held(), 0);
    assert_eq!(c.total(), 50000);
    assert!(!c.locked());
}

#[test]
fn deposit_dispute_chargeback_empties_and_locks() {
    let out = run_ok(vec![
        tx(Operation::Deposit, 2, 2, 30000),
        tx(Operation::Dispute, 2, 2, 0),
        tx(Operation::Chargeback, 2, 2, 0),
    ]);
    assert_eq!(out.len(), 1);
    let c = client(&out, 2);
    assert_eq!(c.available(), 0);
    assert_eq!(c.held(), 0);
    assert_eq!(c.total(), 0);
    assert!(c.locked());
}

#[test]
fn empty_input_is_rejected() {
    let r = run(&Vec::new());
    assert!(matches!(r, Err(RunError::EmptyInput)));
}

#[test]
fn dispute_on_unknown_tx_is_noop() {
    let out = run_ok(vec![
        tx(Operation::Deposit, 1, 1, 50000),
        tx(Operation::Dispute, 1, 99, 0),
    ]);
    let c = client(&out, 1);
    assert_eq!(c.available(), 50000);
    assert_eq!(c.held(), 0);
    assert_eq!(c.total(), 50000);
    assert!(!c.locked());
}

#[test]
fn duplicate_dispute_holds_at_most_once() {
    let out = run_ok(vec![
        tx(Operation::Deposit, 1, 1, 50000),
        tx(Operation::Dispute, 1, 1, 0),
        tx(Operation::Dispute, 1, 1, 0),
    ]);
    let c = client(&out, 1);
    assert_eq!(c.available(), 0);
    assert_eq!(c.held(), 50000);
    assert_eq!(c.total(), 50000);
}

#[test]
fn resolve_without_dispute_is_noop() {
    let out = run_ok(vec![
        tx(Operation::Deposit, 1, 1, 50000),
        tx(Operation::Resolve, 1, 1, 0),
    ]);
    let c = client(&out, 1);
    assert_eq!(c.available(), 50000);
    assert_eq!(c.held(), 0);
    assert_eq!(c.total(), 50000);
}

#[test]
fn chargeback_without_dispute_is_noop() {
    let out = run_ok(vec![
        tx(Operation::Deposit, 1, 1, 50000),
        tx(Operation::Chargeback, 1, 1, 0),
    ]);
    let c = client(&out, 1);
    assert_eq!(c.available(), 50000);
    assert_eq!(c.held(), 0);
    assert_eq!(c.total(), 50000);
    assert!(!c.locked());
}

#[test]
fn locked_account_ignores_deposit_withdrawal_dispute() {
    let out = run_ok(vec![
        tx(Operation::Deposit, 1, 1, 30000),
        tx(Operation::Deposit, 1, 2, 20000),
        tx(Operation::Dispute, 1, 1, 0),
        tx(Operation::Chargeback, 1, 1, 0),
        // The account is now locked; none of these may move balances.
        tx(Operation::Deposit, 1, 3, 10000),
        tx(Operation::Withdrawal, 1, 4, 10000),
        tx(Operation::Dispute, 1, 2, 0),
    ]);
    let c = client(&out, 1);
    assert_eq!(c.available(), 20000);
    assert_eq!(c.held(), 0);
    assert_eq!(c.total(), 20000);
    assert!(c.locked());
}

#[test]
fn resolve_still_works_on_locked_account() {
    let out = run_ok(vec![
        tx(Operation::Deposit, 1, 1, 10000),
        tx(Operation::Deposit, 1, 2, 20000),
        tx(Operation::Dispute, 1, 1, 0),
        tx(Operation::Dispute, 1, 2, 0),
        tx(Operation::Chargeback, 1, 1, 0),
        // Locked now, but the open dispute on tx 2 can still resolve.
        tx(Operation::Resolve, 1, 2, 0),
    ]);
    let c = client(&out, 1);
    assert_eq!(c.available(), 20000);
    assert_eq!(c.held(), 0);
    assert_eq!(c.total(), 20000);
    assert!(c.locked());
}

#[test]
fn withdrawal_exceeding_available_is_noop() {
    let out = run_ok(vec![
        tx(Operation::Deposit, 1, 1, 10000),
        tx(Operation::Withdrawal, 1, 2, 20000),
    ]);
    let c = client(&out, 1);
    assert_eq!(c.available(), 10000);
    assert_eq!(c.held(), 0);
    assert_eq!(c.total(), 10000);
}

#[test]
fn withdrawal_within_available_is_applied() {
    let out = run_ok(vec![
        tx(Operation::Deposit, 1, 1, 50000),
        tx(Operation::Withdrawal, 1, 2, 20000),
    ]);
    let c = client(&out, 1);
    assert_eq!(c.available(), 30000);
    assert_eq!(c.total(), 30000);
}

#[test]
fn dispute_uses_deposit_amount_not_its_own() {
    let out = run_ok(vec![
        tx(Operation::Deposit, 1, 1, 50000),
        tx(Operation::Dispute, 1, 1, 99999),
    ]);
    let c = client(&out, 1);
    assert_eq!(c.available(), 0);
    assert_eq!(c.held(), 50000);
}

#[test]
fn non_positive_deposits_and_withdrawals_are_dropped() {
    let out = run_ok(vec![
        tx(Operation::Deposit, 1, 1, 0),
        tx(Operation::Deposit, 1, 2, -50000),
        tx(Operation::Withdrawal, 1, 3, -10000),
    ]);
    let c = client(&out, 1);
    assert_eq!(c.available(), 0);
    assert_eq!(c.held(), 0);
    assert_eq!(c.total(), 0);
    assert!(!c.locked());
}

#[test]
fn unknown_operation_is_skipped_but_client_appears() {
    let out = run_ok(vec![tx(Operation::Unknown, 7, 1, 12345)]);
    assert_eq!(out.len(), 1);
    let c = client(&out, 7);
    assert_eq!(c.available(), 0);
    assert_eq!(c.held(), 0);
    assert_eq!(c.total(), 0);
    assert!(!c.locked());
}

#[test]
fn later_deposit_overwrites_index_entry() {
    let out = run_ok(vec![
        tx(Operation::Deposit, 1, 1, 10000),
        tx(Operation::Deposit, 1, 1, 30000),
        tx(Operation::Dispute, 1, 1, 0),
    ]);
    let c = client(&out, 1);
    assert_eq!(c.available(), 10000);
    assert_eq!(c.held(), 30000);
    assert_eq!(c.total(), 40000);
}

#[test]
fn dispute_may_reference_a_later_deposit() {
    // The deposit index is built from the whole log before the main
    // pass, so a dispute may come before the deposit it references.
    let out = run_ok(vec![
        tx(Operation::Dispute, 1, 1, 0),
        tx(Operation::Deposit, 1, 1, 50000),
    ]);
    let c = client(&out, 1);
    assert_eq!(c.available(), 0);
    assert_eq!(c.held(), 50000);
    assert_eq!(c.total(), 50000);
}

#[test]
fn clients_appear_in_first_seen_order() {
    let out = run_ok(vec![
        tx(Operation::Deposit, 5, 1, 10000),
        tx(Operation::Deposit, 3, 2, 20000),
        tx(Operation::Deposit, 5, 3, 30000),
        tx(Operation::Deposit, 9, 4, 40000),
    ]);
    let ids: Vec<u16> = out.iter().map(|c| c.client_id()).collect();
    assert_eq!(ids, vec![5, 3, 9]);
}

#[test]
fn total_is_available_plus_held_for_every_client() {
    let out = run_ok(vec![
        tx(Operation::Deposit, 1, 1, 50000),
        tx(Operation::Deposit, 2, 2, 30000),
        tx(Operation::Dispute, 1, 1, 0),
        tx(Operation::Withdrawal, 2, 3, 10000),
        tx(Operation::Dispute, 2, 2, 0),
        tx(Operation::Chargeback, 2, 2, 0),
    ]);
    for c in &out {
        assert_eq!(c.total(), c.available() + c.held());
    }
}

#[test]
fn dispute_by_another_client_holds_on_that_client() {
    // The tracker is keyed by transaction id alone; the hold lands on
    // the account the dispute record names.
    let out = run_ok(vec![
        tx(Operation::Deposit, 1, 1, 50000),
        tx(Operation::Dispute, 2, 1, 0),
    ]);
    let c1 = client(&out, 1);
    assert_eq!(c1.available(), 50000);
    assert_eq!(c1.held(), 0);
    let c2 = client(&out, 2);
    assert_eq!(c2.available(), -50000);
    assert_eq!(c2.held(), 50000);
    assert_eq!(c2.total(), 0);
}
