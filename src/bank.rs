use vstd::prelude::*;
use vstd::rwlock::{RwLock, RwLockPredicate};
use std::collections::HashMap;
use std::sync::Arc;
use crate::account::Account;
use crate::ledger::{
    accounts_wf, is_snapshot, lookup_account, lookup_transaction, snapshot, step, stored, txs_wf, view_wf,
    Ledger, LedgerView,
};
use crate::transaction::Tx;

verus! {

/// What every value held by a bank's account lock satisfies.
pub struct AccountsInv {}

impl RwLockPredicate<HashMap<u16, Account>> for AccountsInv {
    open spec fn inv(self, v: HashMap<u16, Account>) -> bool {
        accounts_wf(v@)
    }
}

/// What every value held by a bank's history lock satisfies.
pub struct TxsInv {}

impl RwLockPredicate<HashMap<u32, Tx>> for TxsInv {
    open spec fn inv(self, v: HashMap<u32, Tx>) -> bool {
        txs_wf(v@)
    }
}

/// A handle to a ledger that several workers share.
///
/// Handles made by `new_for_tokio` reach the same accounts and history. Each
/// operation takes the account lock and then the history lock, so a record's
/// lookup, balance change and flag change happen as one step.
///
/// What the locks hold is known to contracts only through the lock
/// invariants (`AccountsInv`, `TxsInv`): the maps may change between any two
/// calls through another handle, so the methods here state what holds of
/// every value the locks can hold. The exact behaviour is that of `Ledger`
/// and `Tx::process`, which each method runs under the lock.
pub struct Bank {
    pub transactions: Arc<RwLock<HashMap<u32, Tx>, TxsInv>>,
    pub accounts: Arc<RwLock<HashMap<u16, Account>, AccountsInv>>,
}

impl Bank {
    pub open spec fn wf(&self) -> bool {
        &&& (*self.transactions).pred() == TxsInv {}
        &&& (*self.accounts).pred() == AccountsInv {}
    }

    /// A handle to a new, empty ledger.
    pub fn new() -> (r: Bank)
        ensures
            r.wf(),
    {
        let l = Ledger::new();
        Bank {
            transactions: Arc::new(RwLock::new(l.transactions, Ghost(TxsInv {}))),
            accounts: Arc::new(RwLock::new(l.accounts, Ghost(AccountsInv {}))),
        }
    }

    /// A second handle to the ledger that `bank` reaches.
    pub fn new_for_tokio(bank: &Bank) -> (r: Bank)
        requires
            bank.wf(),
        ensures
            r.wf(),
            *r.transactions == *bank.transactions,
            *r.accounts == *bank.accounts,
    {
        Bank { transactions: Arc::clone(&bank.transactions), accounts: Arc::clone(&bank.accounts) }
    }

    /// Applies one record to the shared ledger, under both locks.
    ///
    /// Returns a ghost pair of ledger states, the second `step` of the first.
    /// The contract does not tie the pair to what the locks hold: that the
    /// whole record is applied while both locks are held shows in the body,
    /// which runs `Tx::process` between acquiring and releasing them.
    pub fn apply(&self, t: Tx) -> (r: Ghost<(LedgerView, LedgerView)>)
        requires
            self.wf(),
        ensures
            view_wf(r@.0),
            view_wf(r@.1),
            r@.1 == step(r@.0, t),
    {
        let (accounts, acc_handle) = self.accounts.acquire_write();
        let (transactions, tx_handle) = self.transactions.acquire_write();
        let mut l = Ledger { transactions, accounts };
        let ghost before = l@;
        t.process(&mut l);
        let ghost after = l@;
        let Ledger { transactions, accounts } = l;
        tx_handle.release_write(transactions);
        acc_handle.release_write(accounts);
        Ghost((before, after))
    }

    /// The account of `client`, if it has been referenced.
    pub fn get_account(&self, client: u16) -> (r: Option<Account>)
        requires
            self.wf(),
        ensures
            r matches Some(a) ==> a.client == client && a.wf(),
    {
        let h = self.accounts.acquire_read();
        let r = lookup_account(h.borrow(), client);
        h.release_read();
        r
    }

    /// The deposit or withdrawal stored under `tx`, if any.
    pub fn get_stored_transaction(&self, tx: u32) -> (r: Option<Tx>)
        requires
            self.wf(),
        ensures
            r matches Some(t) ==> t.tx == tx && t.is_stored_kind(),
    {
        let h = self.transactions.acquire_read();
        let r = lookup_transaction(h.borrow(), tx);
        h.release_read();
        r
    }

    /// The number of stored records.
    pub fn transaction_count(&self) -> usize {
        let h = self.transactions.acquire_read();
        let r = h.borrow().len();
        h.release_read();
        r
    }

    /// Stores a deposit or withdrawal under its id, replacing any earlier one.
    ///
    /// Returns the history as the lock handed it over and as it takes it back.
    pub fn store_transaction(&self, t: Tx) -> (r: Ghost<(Map<u32, Tx>, Map<u32, Tx>)>)
        requires
            self.wf(),
            t.is_stored_kind(),
        ensures
            r@.1 == stored(r@.0, t),
    {
        let (mut txs, h) = self.transactions.acquire_write();
        let ghost before = txs@;
        txs.insert(t.tx, t);
        let ghost after = txs@;
        h.release_write(txs);
        Ghost((before, after))
    }

    /// All accounts in ascending client order, each with its total, as they
    /// stand while the account lock is held.
    pub fn snapshot_accounts(&self) -> (r: Vec<Account>)
        requires
            self.wf(),
        ensures
            exists|m: Map<u16, Account>| accounts_wf(m) && is_snapshot(m, r@),
    {
        let h = self.accounts.acquire_read();
        let r = snapshot(h.borrow());
        h.release_read();
        r
    }
}

} // verus!
