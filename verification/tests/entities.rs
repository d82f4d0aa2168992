// Unit tests of the per-account balance operations.

use payments_engine::entities::Client;
use payments_engine::utils::check_file_exists;

#[test]
fn new_account_starts_empty() {
    let c = Client::new(42);
    assert_eq!(c.client_id(), 42);
    assert_eq!(c.available(), 0);
    assert_eq!(c.held(), 0);
    assert_eq!(c.total(), 0);
    assert!(!c.locked());
}

#[test]
fn credit_adds_to_available_and_total() {
    let mut c = Client::new(1);
    assert!(c.credit(12345));
    assert_eq!(c.available(), 12345);
    assert_eq!(c.held(), 0);
    assert_eq!(c.total(), 12345);
}

#[test]
fn debit_needs_sufficient_available() {
    let mut c = Client::new(1);
    assert!(c.credit(10000));
    assert!(!c.debit(20000));
    assert_eq!(c.available(), 10000);
    assert!(c.debit(4000));
    assert_eq!(c.available(), 6000);
    assert_eq!(c.total(), 6000);
}

#[test]
fn hold_moves_available_to_held() {
    let mut c = Client::new(1);
    assert!(c.credit(10000));
    assert!(c.hold(10000));
    assert_eq!(c.available(), 0);
    assert_eq!(c.held(), 10000);
    assert_eq!(c.total(), 10000);
}

#[test]
fn release_hold_moves_held_back() {
    let mut c = Client::new(1);
    assert!(c.credit(10000));
    assert!(c.hold(10000));
    assert!(c.release_hold(10000));
    assert_eq!(c.available(), 10000);
    assert_eq!(c.held(), 0);
    assert_eq!(c.total(), 10000);
}

#[test]
fn charge_back_removes_held_and_locks() {
    let mut c = Client::new(1);
    assert!(c.credit(10000));
    assert!(c.hold(10000));
    assert!(c.charge_back(10000));
    assert_eq!(c.available(), 0);
    assert_eq!(c.held(), 0);
    assert_eq!(c.total(), 0);
    assert!(c.locked());
}

#[test]
fn locked_account_refuses_credit_debit_hold() {
    let mut c = Client::new(1);
    assert!(c.credit(10000));
    assert!(c.hold(10000));
    assert!(c.charge_back(10000));
    assert!(!c.credit(5000));
    assert!(!c.debit(5000));
    assert!(!c.hold(5000));
    assert_eq!(c.available(), 0);
    assert_eq!(c.total(), 0);
}

#[test]
fn release_and_charge_back_ignore_the_lock() {
    let mut c = Client::new(1);
    assert!(c.credit(30000));
    assert!(c.hold(10000));
    assert!(c.hold(10000));
    assert!(c.charge_back(10000));
    assert!(c.locked());
    // Release and chargeback are deliberately not blocked by the lock.
    assert!(c.release_hold(10000));
    assert_eq!(c.available(), 20000);
    assert_eq!(c.held(), 0);
    assert_eq!(c.total(), 20000);
}

#[test]
fn missing_file_is_reported_absent() {
    assert!(!check_file_exists("surely/no/such/file.csv"));
}
