//! Record and account types: the in-memory shape of a transaction record
//! and of a client account, together with the balance-mutating operations.

use vstd::prelude::*;

verus! {

/// The operation a transaction record asks for. Unrecognized operation
/// strings are mapped to `Unknown` at parse time; the engine ignores them.
#[derive(Clone, Copy, PartialEq, Eq, Structural, Debug)]
pub enum Operation {
    Deposit,
    Withdrawal,
    Dispute,
    Resolve,
    Chargeback,
    Unknown,
}

/// One input record. `amount` is a fixed-point quantity in ten-thousandths
/// of a currency unit; it is meaningful only for deposits and withdrawals
/// (dispute-family records recover the disputed deposit's amount from the
/// deposit index instead).
#[derive(Clone, Copy, PartialEq, Eq, Structural, Debug)]
pub struct Transaction {
    pub operation: Operation,
    pub client_id: u16,
    pub tx_id: u32,
    pub amount: i64,
}

/// The mathematical model of one client account: unbounded integer
/// balances plus the locked flag.
pub struct AccountState {
    pub available: int,
    pub held: int,
    pub total: int,
    pub locked: bool,
}

/// The state a fresh account starts in: zero balances, not locked.
pub open spec fn initial_account() -> AccountState {
    AccountState { available: 0, held: 0, total: 0, locked: false }
}

/// Effect of a successful credit: the amount enters available funds.
pub open spec fn credited(a: AccountState, amt: int) -> AccountState {
    AccountState { available: a.available + amt, held: a.held, total: a.total + amt, locked: a.locked }
}

/// Effect of a successful debit: the amount leaves available funds.
pub open spec fn debited(a: AccountState, amt: int) -> AccountState {
    AccountState { available: a.available - amt, held: a.held, total: a.total - amt, locked: a.locked }
}

/// Effect of a hold: the amount moves from available to held funds.
pub open spec fn with_hold(a: AccountState, amt: int) -> AccountState {
    AccountState { available: a.available - amt, held: a.held + amt, total: a.total, locked: a.locked }
}

/// Effect of releasing a hold: the amount moves back to available funds.
pub open spec fn released(a: AccountState, amt: int) -> AccountState {
    AccountState { available: a.available + amt, held: a.held - amt, total: a.total, locked: a.locked }
}

/// Effect of a chargeback: the held amount leaves the account for good
/// and the account locks.
pub open spec fn charged_back(a: AccountState, amt: int) -> AccountState {
    AccountState { available: a.available, held: a.held - amt, total: a.total - amt, locked: true }
}

/// One client account. Balances are fixed-point integers in
/// ten-thousandths of a currency unit, wide enough that no sequence of
/// records that fits in memory can overflow them.
#[derive(Clone, Copy)]
pub struct Client {
    client_id: u16,
    available: i128,
    held: i128,
    total: i128,
    locked: bool,
}

impl View for Client {
    type V = AccountState;

    closed spec fn view(&self) -> AccountState {
        AccountState {
            available: self.available as int,
            held: self.held as int,
            total: self.total as int,
            locked: self.locked,
        }
    }
}

impl Client {
    /// The identifier of the client this account belongs to.
    pub closed spec fn id(self) -> u16 {
        self.client_id
    }

    /// A fresh account for `client_id`: zero balances, not locked.
    pub fn new(client_id: u16) -> (c: Client)
        ensures
            c@ == initial_account(),
            c.id() == client_id,
    {
        Client { client_id, available: 0, held: 0, total: 0, locked: false }
    }

    /// Add `amount` to available funds, unless the account is locked.
    pub fn credit(&mut self, amount: i64) -> (r: bool)
        requires
            amount > 0,
            old(self)@.available + amount <= i128::MAX,
            old(self)@.total + amount <= i128::MAX,
        ensures
            r == !old(self)@.locked,
            r ==> final(self)@ == credited(old(self)@, amount as int),
            !r ==> final(self)@ == old(self)@,
            final(self).id() == old(self).id(),
    {
        if self.locked {
            return false;
        }
        self.available = self.available + amount as i128;
        self.total = self.total + amount as i128;
        true
    }

    /// Remove `amount` from available funds; fails (leaving the account
    /// unchanged) if the account is locked or available funds fall short.
    pub fn debit(&mut self, amount: i64) -> (r: bool)
        requires
            amount > 0,
            i128::MIN <= old(self)@.total - amount,
        ensures
            r == (!old(self)@.locked && old(self)@.available >= amount),
            r ==> final(self)@ == debited(old(self)@, amount as int),
            !r ==> final(self)@ == old(self)@,
            final(self).id() == old(self).id(),
    {
        if self.locked {
            return false;
        }
        if self.available >= amount as i128 {
            self.available = self.available - amount as i128;
            self.total = self.total - amount as i128;
            return true;
        }
        false
    }

    /// Freeze `amount` pending a dispute: move it from available to held
    /// funds, unless the account is locked. Available funds may go
    /// negative: a dispute freezes the deposited amount unconditionally.
    pub fn hold(&mut self, amount: i64) -> (r: bool)
        requires
            amount > 0,
            old(self)@.held + amount <= i128::MAX,
            i128::MIN <= old(self)@.available - amount,
        ensures
            r == !old(self)@.locked,
            r ==> final(self)@ == with_hold(old(self)@, amount as int),
            !r ==> final(self)@ == old(self)@,
            final(self).id() == old(self).id(),
    {
        if self.locked {
            return false;
        }
        self.held = self.held + amount as i128;
        self.available = self.available - amount as i128;
        true
    }

    /// Resolve a dispute: move `amount` back from held to available
    /// funds. Always succeeds, locked or not.
    pub fn release_hold(&mut self, amount: i64) -> (r: bool)
        requires
            amount > 0,
            i128::MIN <= old(self)@.held - amount,
            old(self)@.available + amount <= i128::MAX,
        ensures
            r,
            final(self)@ == released(old(self)@, amount as int),
            final(self).id() == old(self).id(),
    {
        self.held = self.held - amount as i128;
        self.available = self.available + amount as i128;
        true
    }

    /// Charge a disputed deposit back: the held amount leaves the account
    /// and the account locks. Always succeeds, locked or not.
    pub fn charge_back(&mut self, amount: i64) -> (r: bool)
        requires
            amount > 0,
            i128::MIN <= old(self)@.held - amount,
            i128::MIN <= old(self)@.total - amount,
        ensures
            r,
            final(self)@ == charged_back(old(self)@, amount as int),
            final(self).id() == old(self).id(),
    {
        self.held = self.held - amount as i128;
        self.total = self.total - amount as i128;
        self.locked = true;
        true
    }

    /// The identifier of the client this account belongs to.
    pub fn client_id(&self) -> (r: u16)
        ensures
            r == self.id(),
    {
        self.client_id
    }

    /// Funds usable for withdrawals or new holds.
    pub fn available(&self) -> (r: i128)
        ensures
            r as int == self@.available,
    {
        self.available
    }

    /// Funds currently frozen by active disputes.
    pub fn held(&self) -> (r: i128)
        ensures
            r as int == self@.held,
    {
        self.held
    }

    /// Total funds: available plus held.
    pub fn total(&self) -> (r: i128)
        ensures
            r as int == self@.total,
    {
        self.total
    }

    /// Whether a chargeback has locked the account.
    pub fn locked(&self) -> (r: bool)
        ensures
            r == self@.locked,
    {
        self.locked
    }
}

} // verus!
