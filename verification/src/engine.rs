//! The transaction-processing engine: the deposit index, the dispute
//! tracker, the per-record state machine, and the run over a whole record
//! log.

use vstd::prelude::*;

use std::collections::HashMap;
use std::collections::HashSet;

use crate::entities::{
    AccountState, Client, Operation, Transaction, charged_back, credited, debited, initial_account,
    released, with_hold,
};

verus! {

broadcast use vstd::std_specs::hash::group_hash_axioms;

/// Why a run produced no ledger. `FileNotFound` and `MalformedRecord`
/// arise while collecting the records, before the engine proper runs;
/// `EmptyInput` is the engine's own rejection of a record-less log.
#[derive(Clone, Copy, PartialEq, Eq, Structural, Debug)]
pub enum RunError {
    FileNotFound,
    MalformedRecord,
    EmptyInput,
}

/// The ghost state of a whole run: every account seen so far (keyed by
/// client id), the client ids in first-seen order, and the set of
/// transaction ids currently under an open dispute.
pub struct LedgerState {
    pub accounts: Map<u16, AccountState>,
    pub order: Seq<u16>,
    pub disputed: Set<u32>,
}

/// The state before any record has been processed.
pub open spec fn initial_state() -> LedgerState {
    LedgerState { accounts: Map::empty(), order: Seq::empty(), disputed: Set::empty() }
}

/// Resolve the target client account, creating it with zero balances on
/// first reference.
pub open spec fn touch(s: LedgerState, c: u16) -> LedgerState {
    if s.accounts.contains_key(c) {
        s
    } else {
        LedgerState {
            accounts: s.accounts.insert(c, initial_account()),
            order: s.order.push(c),
            disputed: s.disputed,
        }
    }
}

/// Replace the account of client `c`, leaving the rest of the state as
/// it is.
pub open spec fn with_account(s: LedgerState, c: u16, a: AccountState) -> LedgerState {
    LedgerState { accounts: s.accounts.insert(c, a), order: s.order, disputed: s.disputed }
}

/// How one record changes the ledger state, given the deposit index of
/// the whole run. The target account is created first if need be; then
/// the record is dispatched on its operation, and a record whose
/// eligibility checks fail leaves the state (beyond that creation)
/// unchanged.
pub open spec fn step(index: Map<u32, i64>, s: LedgerState, t: Transaction) -> LedgerState {
    let s1 = touch(s, t.client_id);
    let a = s1.accounts[t.client_id];
    match t.operation {
        Operation::Deposit => {
            if t.amount > 0 && !a.locked {
                with_account(s1, t.client_id, credited(a, t.amount as int))
            } else {
                s1
            }
        },
        Operation::Withdrawal => {
            if t.amount > 0 && !a.locked && a.available >= t.amount {
                with_account(s1, t.client_id, debited(a, t.amount as int))
            } else {
                s1
            }
        },
        Operation::Dispute => {
            if index.contains_key(t.tx_id) && !s1.disputed.contains(t.tx_id) && !a.locked {
                LedgerState {
                    accounts: s1.accounts.insert(t.client_id, with_hold(a, index[t.tx_id] as int)),
                    order: s1.order,
                    disputed: s1.disputed.insert(t.tx_id),
                }
            } else {
                s1
            }
        },
        Operation::Resolve => {
            if index.contains_key(t.tx_id) && s1.disputed.contains(t.tx_id) {
                LedgerState {
                    accounts: s1.accounts.insert(t.client_id, released(a, index[t.tx_id] as int)),
                    order: s1.order,
                    disputed: s1.disputed.remove(t.tx_id),
                }
            } else {
                s1
            }
        },
        Operation::Chargeback => {
            if index.contains_key(t.tx_id) && s1.disputed.contains(t.tx_id) {
                LedgerState {
                    accounts: s1.accounts.insert(
                        t.client_id,
                        charged_back(a, index[t.tx_id] as int),
                    ),
                    order: s1.order,
                    disputed: s1.disputed.remove(t.tx_id),
                }
            } else {
                s1
            }
        },
        Operation::Unknown => s1,
    }
}

/// The ledger state after processing all of `records` in order, against
/// the deposit index `index`.
pub open spec fn run_state(index: Map<u32, i64>, records: Seq<Transaction>) -> LedgerState
    decreases records.len(),
{
    if records.len() == 0 {
        initial_state()
    } else {
        step(index, run_state(index, records.drop_last()), records.last())
    }
}

/// The deposit index of `records`: for every deposit record with a
/// positive amount, its transaction id maps to that amount, a later
/// deposit overwriting an earlier one with the same id. No other record
/// is indexed.
pub open spec fn index_of(records: Seq<Transaction>) -> Map<u32, i64>
    decreases records.len(),
{
    if records.len() == 0 {
        Map::empty()
    } else {
        let prev = index_of(records.drop_last());
        let t = records.last();
        if t.operation == Operation::Deposit && t.amount > 0 {
            prev.insert(t.tx_id, t.amount)
        } else {
            prev
        }
    }
}

/// The ledger state a record log settles on: the whole log's deposit
/// index is built first, then every record is processed in order.
pub open spec fn final_ledger(records: Seq<Transaction>) -> LedgerState {
    run_state(index_of(records), records)
}

/// Well-formedness of a ledger state: the first-seen order lists each
/// client exactly once, the clients on record are exactly those listed,
/// and every account's total is its available plus its held funds.
pub open spec fn state_wf(s: LedgerState) -> bool {
    &&& s.order.no_duplicates()
    &&& (forall|c: u16| #[trigger] s.accounts.contains_key(c) <==> s.order.contains(c))
    &&& (forall|c: u16|
        s.accounts.contains_key(c) ==> (#[trigger] s.accounts[c]).total == s.accounts[c].available
            + s.accounts[c].held)
}

/// Every amount the index holds is positive.
pub open spec fn index_positive(index: Map<u32, i64>) -> bool {
    forall|t: u32| index.contains_key(t) ==> 0 < #[trigger] index[t]
}

/// Every account's balances lie within `n` maximal amounts of zero.
pub open spec fn account_bounded(a: AccountState, n: int) -> bool {
    &&& -n * (i64::MAX as int) <= a.available <= n * (i64::MAX as int)
    &&& -n * (i64::MAX as int) <= a.held <= n * (i64::MAX as int)
    &&& -n * (i64::MAX as int) <= a.total <= n * (i64::MAX as int)
}

/// Every account on record is bounded by `n` maximal amounts.
pub open spec fn state_bounded(s: LedgerState, n: int) -> bool {
    forall|c: u16| s.accounts.contains_key(c) ==> account_bounded(#[trigger] s.accounts[c], n)
}

/// The deposit index never holds a non-positive amount.
pub proof fn lemma_index_of_positive(records: Seq<Transaction>)
    ensures
        index_positive(index_of(records)),
    decreases records.len(),
{
    if records.len() > 0 {
        lemma_index_of_positive(records.drop_last());
    }
}

/// One step preserves well-formedness of the ledger state.
pub proof fn lemma_step_wf(index: Map<u32, i64>, s: LedgerState, t: Transaction)
    requires
        state_wf(s),
    ensures
        state_wf(step(index, s, t)),
{
    let s1 = touch(s, t.client_id);
    if !s.accounts.contains_key(t.client_id) {
        assert(!s.order.contains(t.client_id));
        assert forall|c: u16| #[trigger] s1.accounts.contains_key(c) <==> s1.order.contains(
            c,
        ) by {
            if c == t.client_id {
                assert(s1.order.last() == c);
                assert(s1.order.contains(c));
            } else {
                assert(s1.order.contains(c) <==> s.order.contains(c)) by {
                    if s.order.contains(c) {
                        let i = s.order.index_of(c);
                        assert(s1.order[i] == c);
                    } else if s1.order.contains(c) {
                        let i = choose|i: int| 0 <= i < s1.order.len() && s1.order[i] == c;
                        assert(s.order[i] == c);
                    }
                }
            }
        }
    }
    assert(state_wf(s1));
    assert(s1.accounts.contains_key(t.client_id));
    let r = step(index, s, t);
    assert(r.order == s1.order);
    assert(forall|c: u16|
        #[trigger] r.accounts.contains_key(c) <==> s1.accounts.contains_key(c));
    assert forall|c: u16| r.accounts.contains_key(c) implies (#[trigger] r.accounts[c]).total
        == r.accounts[c].available + r.accounts[c].held by {
        assert(s1.accounts[c].total == s1.accounts[c].available + s1.accounts[c].held);
    }
}

/// One step keeps every account within one more maximal amount of where
/// it was.
pub proof fn lemma_step_bounded(index: Map<u32, i64>, s: LedgerState, t: Transaction, n: int)
    requires
        index_positive(index),
        state_bounded(s, n),
        n >= 0,
    ensures
        state_bounded(step(index, s, t), n + 1),
{
    let m = i64::MAX as int;
    assert((n + 1) * m == n * m + m) by (nonlinear_arith);
    assert(n * m >= 0) by (nonlinear_arith)
        requires
            n >= 0,
            m >= 0,
    ;
}

/// Every reachable ledger state is well-formed.
pub proof fn lemma_run_state_wf(index: Map<u32, i64>, records: Seq<Transaction>)
    ensures
        state_wf(run_state(index, records)),
    decreases records.len(),
{
    if records.len() == 0 {
        assert(initial_state().order.no_duplicates());
    } else {
        lemma_run_state_wf(index, records.drop_last());
        lemma_step_wf(index, run_state(index, records.drop_last()), records.last());
    }
}

/// After processing any record log, every client account on record has
/// its total equal to its available plus its held funds.
pub proof fn lemma_total_is_available_plus_held(records: Seq<Transaction>)
    ensures
        forall|c: u16|
            final_ledger(records).accounts.contains_key(c) ==> (#[trigger] final_ledger(
                records,
            ).accounts[c]).total == final_ledger(records).accounts[c].available + final_ledger(
                records,
            ).accounts[c].held,
{
    lemma_run_state_wf(index_of(records), records);
}

/// A dispute referencing a transaction id absent from the deposit index
/// does nothing beyond creating the target account on first reference;
/// in particular every account already on record keeps its state, and no
/// dispute opens.
pub proof fn lemma_dispute_unknown_tx_noop(index: Map<u32, i64>, s: LedgerState, t: Transaction)
    requires
        t.operation == Operation::Dispute,
        !index.contains_key(t.tx_id),
    ensures
        step(index, s, t) == touch(s, t.client_id),
        forall|c: u16|
            s.accounts.contains_key(c) ==> step(index, s, t).accounts[c] == #[trigger] s.accounts[c],
        step(index, s, t).disputed == s.disputed,
{
}

/// Disputing the same transaction id twice in a row applies the hold
/// effect at most once: the second dispute is a no-op.
pub proof fn lemma_dispute_idempotent(index: Map<u32, i64>, s: LedgerState, t: Transaction)
    requires
        t.operation == Operation::Dispute,
    ensures
        step(index, step(index, s, t), t) == step(index, s, t),
{
}

/// A resolve or chargeback referencing a transaction id that is not
/// under an open dispute does nothing beyond creating the target account
/// on first reference.
pub proof fn lemma_undisputed_resolve_chargeback_noop(
    index: Map<u32, i64>,
    s: LedgerState,
    t: Transaction,
)
    requires
        t.operation == Operation::Resolve || t.operation == Operation::Chargeback,
        !s.disputed.contains(t.tx_id),
    ensures
        step(index, s, t) == touch(s, t.client_id),
{
}

/// An applied chargeback locks the target account.
pub proof fn lemma_chargeback_locks(index: Map<u32, i64>, s: LedgerState, t: Transaction)
    requires
        t.operation == Operation::Chargeback,
        index.contains_key(t.tx_id),
        s.disputed.contains(t.tx_id),
    ensures
        step(index, s, t).accounts[t.client_id].locked,
{
}

/// A locked account is frozen: deposit, withdrawal and dispute records
/// aimed at it leave the whole ledger state unchanged. (Resolve and
/// chargeback records for other open disputes of the same client may
/// still move its held and total funds.)
pub proof fn lemma_locked_account_frozen(index: Map<u32, i64>, s: LedgerState, t: Transaction)
    requires
        s.accounts.contains_key(t.client_id),
        s.accounts[t.client_id].locked,
        t.operation == Operation::Deposit || t.operation == Operation::Withdrawal || t.operation
            == Operation::Dispute,
    ensures
        step(index, s, t) == s,
{
}

/// A resolve or chargeback whose transaction id is under an open
/// dispute applies its effect to the target account even when that
/// account is locked.
pub proof fn lemma_resolve_chargeback_ignore_lock(
    index: Map<u32, i64>,
    s: LedgerState,
    t: Transaction,
)
    requires
        index.contains_key(t.tx_id),
        s.disputed.contains(t.tx_id),
    ensures
        t.operation == Operation::Resolve ==> step(index, s, t).accounts[t.client_id] == released(
            touch(s, t.client_id).accounts[t.client_id],
            index[t.tx_id] as int,
        ),
        t.operation == Operation::Chargeback ==> step(index, s, t).accounts[t.client_id]
            == charged_back(touch(s, t.client_id).accounts[t.client_id], index[t.tx_id] as int),
{
}

/// A withdrawal asking for more than the available funds leaves the
/// ledger state unchanged beyond creating the target account.
pub proof fn lemma_withdrawal_insufficient_noop(index: Map<u32, i64>, s: LedgerState, t: Transaction)
    requires
        t.operation == Operation::Withdrawal,
        touch(s, t.client_id).accounts[t.client_id].available < t.amount,
    ensures
        step(index, s, t) == touch(s, t.client_id),
{
}

/// The executable collections mirror the ghost ledger state: the client
/// ids in `order` are the first-seen order, the accounts and the open
/// disputes are exactly those of `s`, and each stored account carries
/// the id it is filed under.
pub open spec fn abstracts(
    accounts: Map<u16, Client>,
    order: Seq<u16>,
    disputed: Set<u32>,
    s: LedgerState,
) -> bool {
    &&& order == s.order
    &&& disputed == s.disputed
    &&& (forall|c: u16| #[trigger] accounts.contains_key(c) <==> s.accounts.contains_key(c))
    &&& (forall|c: u16|
        accounts.contains_key(c) ==> ((#[trigger] accounts[c])@ == s.accounts[c] && accounts[c].id()
            == c))
}

/// Any single further amount applied to an account that `n` records
/// built stays within the fixed-point range, provided a count of `n`
/// plus one more record still fits in a machine word.
proof fn lemma_account_fits(a: AccountState, d: int, n: int)
    requires
        account_bounded(a, n),
        -(i64::MAX as int) <= d <= i64::MAX as int,
        0 <= n,
        n + 1 <= usize::MAX as int,
    ensures
        i128::MIN <= a.available + d <= i128::MAX,
        i128::MIN <= a.available - d <= i128::MAX,
        i128::MIN <= a.held + d <= i128::MAX,
        i128::MIN <= a.held - d <= i128::MAX,
        i128::MIN <= a.total + d <= i128::MAX,
        i128::MIN <= a.total - d <= i128::MAX,
{
    let m = i64::MAX as int;
    assert(usize::MAX as int <= 0xffff_ffff_ffff_ffff);
    assert((n + 1) * m <= 0xffff_ffff_ffff_ffff * m) by (nonlinear_arith)
        requires
            n + 1 <= 0xffff_ffff_ffff_ffff,
            m >= 0,
    ;
    assert((n + 1) * m == n * m + m) by (nonlinear_arith);
    assert(0xffff_ffff_ffff_ffff * m < i128::MAX);
    assert(n * m >= 0) by (nonlinear_arith)
        requires
            n >= 0,
            m >= 0,
    ;
}

/// Build the deposit index of `records`: one forward pass over the whole
/// log, indexing every deposit with a positive amount by its transaction
/// id, a later deposit overwriting an earlier one.
fn build_index(records: &Vec<Transaction>) -> (m: HashMap<u32, i64>)
    ensures
        m@ == index_of(records@),
{
    let mut m: HashMap<u32, i64> = HashMap::new();
    let n = records.len();
    let mut i: usize = 0;
    proof {
        assert(records@.subrange(0, 0) =~= Seq::<Transaction>::empty());
    }
    while i < n
        invariant
            n == records@.len(),
            i <= n,
            m@ == index_of(records@.subrange(0, i as int)),
        decreases n - i,
    {
        let t = &records[i];
        proof {
            assert(records@.subrange(0, i as int + 1).drop_last() =~= records@.subrange(
                0,
                i as int,
            ));
            assert(records@.subrange(0, i as int + 1).last() == records@[i as int]);
        }
        if t.operation == Operation::Deposit && t.amount > 0 {
            m.insert(t.tx_id, t.amount);
        }
        i += 1;
    }
    proof {
        assert(records@.subrange(0, n as int) =~= records@);
    }
    m
}

/// Process one record against the live collections: resolve the target
/// client account (creating it on first reference), then dispatch on the
/// operation, exactly as the ghost `step` function says.
fn apply_record(
    accounts: &mut HashMap<u16, Client>,
    order: &mut Vec<u16>,
    disputed: &mut HashSet<u32>,
    index: &HashMap<u32, i64>,
    t: &Transaction,
    Ghost(s): Ghost<LedgerState>,
    Ghost(n): Ghost<int>,
)
    requires
        abstracts(old(accounts)@, old(order)@, old(disputed)@, s),
        index_positive(index@),
        state_bounded(s, n),
        0 <= n,
        n + 1 <= usize::MAX as int,
    ensures
        abstracts(final(accounts)@, final(order)@, final(disputed)@, step(index@, s, *t)),
{
    if !accounts.contains_key(&t.client_id) {
        accounts.insert(t.client_id, Client::new(t.client_id));
        order.push(t.client_id);
    }
    let ghost s1 = touch(s, t.client_id);
    let ghost a = s1.accounts[t.client_id];
    proof {
        assert(abstracts(accounts@, order@, disputed@, s1));
        assert(account_bounded(a, n));
    }
    match t.operation {
        Operation::Deposit => {
            if t.amount > 0 {
                proof {
                    lemma_account_fits(a, t.amount as int, n);
                }
                let mut c: Client = *accounts.get(&t.client_id).unwrap();
                c.credit(t.amount);
                accounts.insert(t.client_id, c);
            }
        },
        Operation::Withdrawal => {
            if t.amount > 0 {
                proof {
                    lemma_account_fits(a, t.amount as int, n);
                }
                let mut c: Client = *accounts.get(&t.client_id).unwrap();
                c.debit(t.amount);
                accounts.insert(t.client_id, c);
            }
        },
        Operation::Dispute => {
            match index.get(&t.tx_id) {
                Some(amount) => {
                    let amount = *amount;
                    if !disputed.contains(&t.tx_id) {
                        proof {
                            lemma_account_fits(a, amount as int, n);
                        }
                        let mut c: Client = *accounts.get(&t.client_id).unwrap();
                        if c.hold(amount) {
                            accounts.insert(t.client_id, c);
                            disputed.insert(t.tx_id);
                        }
                    }
                },
                None => {},
            }
        },
        Operation::Resolve => {
            match index.get(&t.tx_id) {
                Some(amount) => {
                    let amount = *amount;
                    if disputed.contains(&t.tx_id) {
                        proof {
                            lemma_account_fits(a, amount as int, n);
                        }
                        let mut c: Client = *accounts.get(&t.client_id).unwrap();
                        c.release_hold(amount);
                        accounts.insert(t.client_id, c);
                        disputed.remove(&t.tx_id);
                    }
                },
                None => {},
            }
        },
        Operation::Chargeback => {
            match index.get(&t.tx_id) {
                Some(amount) => {
                    let amount = *amount;
                    if disputed.contains(&t.tx_id) {
                        proof {
                            lemma_account_fits(a, amount as int, n);
                        }
                        let mut c: Client = *accounts.get(&t.client_id).unwrap();
                        c.charge_back(amount);
                        accounts.insert(t.client_id, c);
                        disputed.remove(&t.tx_id);
                    }
                },
                None => {},
            }
        },
        Operation::Unknown => {},
    }
}

/// Process a whole record log and return the final account snapshots,
/// one per distinct client, in first-seen order. A log with no records
/// is rejected with `EmptyInput`; otherwise the result is exactly what
/// the ghost state machine `final_ledger` says, and every returned
/// account's total is its available plus its held funds.
pub fn run(records: &Vec<Transaction>) -> (r: Result<Vec<Client>, RunError>)
    ensures
        r is Err <==> records@.len() == 0,
        r is Err ==> r->Err_0 == RunError::EmptyInput,
        r is Ok ==> ({
            let s = final_ledger(records@);
            let out = r->Ok_0;
            &&& out@.len() == s.order.len()
            &&& (forall|k: int|
                0 <= k < out@.len() ==> (#[trigger] out@[k]).id() == s.order[k] && out@[k]@
                    == s.accounts[s.order[k]])
            &&& (forall|k: int|
                0 <= k < out@.len() ==> (#[trigger] out@[k])@.total == out@[k]@.available
                    + out@[k]@.held)
        }),
{
    if records.len() == 0 {
        return Err(RunError::EmptyInput);
    }
    let index = build_index(records);
    proof {
        lemma_index_of_positive(records@);
    }
    let mut accounts: HashMap<u16, Client> = HashMap::new();
    let mut order: Vec<u16> = Vec::new();
    let mut disputed: HashSet<u32> = HashSet::new();
    let n = records.len();
    let mut i: usize = 0;
    proof {
        assert(records@.subrange(0, 0) =~= Seq::<Transaction>::empty());
    }
    while i < n
        invariant
            n == records@.len(),
            i <= n,
            index@ == index_of(records@),
            index_positive(index@),
            abstracts(
                accounts@,
                order@,
                disputed@,
                run_state(index@, records@.subrange(0, i as int)),
            ),
            state_bounded(run_state(index@, records@.subrange(0, i as int)), i as int),
        decreases n - i,
    {
        let ghost s = run_state(index@, records@.subrange(0, i as int));
        let t = &records[i];
        proof {
            assert(records@.subrange(0, i as int + 1).drop_last() =~= records@.subrange(
                0,
                i as int,
            ));
            assert(records@.subrange(0, i as int + 1).last() == records@[i as int]);
            lemma_step_bounded(index@, s, records@[i as int], i as int);
        }
        apply_record(
            &mut accounts,
            &mut order,
            &mut disputed,
            &index,
            t,
            Ghost(s),
            Ghost(i as int),
        );
        i += 1;
    }
    proof {
        assert(records@.subrange(0, n as int) =~= records@);
        lemma_run_state_wf(index@, records@);
    }
    let ghost sf = final_ledger(records@);
    let mut out: Vec<Client> = Vec::new();
    let m = order.len();
    let mut j: usize = 0;
    while j < m
        invariant
            m == order@.len(),
            j <= m,
            abstracts(accounts@, order@, disputed@, sf),
            state_wf(sf),
            out@.len() == j,
            forall|k: int|
                0 <= k < j ==> (#[trigger] out@[k]).id() == sf.order[k] && out@[k]@
                    == sf.accounts[sf.order[k]],
        decreases m - j,
    {
        let id = order[j];
        proof {
            assert(sf.order[j as int] == id);
            assert(sf.order.contains(id));
        }
        let c: Client = *accounts.get(&id).unwrap();
        out.push(c);
        j += 1;
    }
    proof {
        assert forall|k: int| 0 <= k < out@.len() implies (#[trigger] out@[k])@.total
            == out@[k]@.available + out@[k]@.held by {
            assert(sf.order.contains(sf.order[k]));
            assert(sf.accounts.contains_key(sf.order[k]));
        }
    }
    Ok(out)
}

} // verus!
