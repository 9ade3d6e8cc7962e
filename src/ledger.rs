use vstd::prelude::*;
use std::collections::HashMap;
use crate::account::{fits, Account};
use crate::transaction::{Tx, TxType};

verus! {

broadcast use vstd::std_specs::hash::group_hash_axioms;

/// The abstract state of a ledger: stored records by id, accounts by client.
pub ghost struct LedgerView {
    pub txs: Map<u32, Tx>,
    pub accounts: Map<u16, Account>,
}

/// The stored history holds each deposit or withdrawal under its own id.
pub open spec fn txs_wf(txs: Map<u32, Tx>) -> bool {
    forall|k: u32| #[trigger] txs.contains_key(k) ==> txs[k].tx == k && txs[k].is_stored_kind()
}

/// Each account sits under its own client id, and its balances fit.
pub open spec fn accounts_wf(accounts: Map<u16, Account>) -> bool {
    forall|c: u16| #[trigger] accounts.contains_key(c) ==> accounts[c].client == c && accounts[c].wf()
}

pub open spec fn view_wf(l: LedgerView) -> bool {
    txs_wf(l.txs) && accounts_wf(l.accounts)
}

/// The account of client `c`, or a fresh one where none exists yet.
pub open spec fn account_of(accounts: Map<u16, Account>, c: u16) -> Account {
    if accounts.contains_key(c) {
        accounts[c]
    } else {
        Account::fresh(c)
    }
}

/// What the record `t` does to the unlocked account `a` and to the stored
/// history `txs`, before `t` itself is stored.
///
/// An instruction that does not apply changes nothing: a withdrawal beyond
/// the available funds, a dispute of an unknown or already disputed record, a
/// resolve or chargeback of a record that is not under dispute, and any
/// instruction whose balances would not fit in an `i64`.
pub open spec fn dispatch(a: Account, txs: Map<u32, Tx>, t: Tx) -> (Account, Map<u32, Tx>) {
    let av = a.available.value as int;
    let h = a.held.value as int;
    let amt = t.amount.value as int;
    match t.type_ {
        TxType::Deposit => if fits(av + amt, h) {
            (a.with_balances(av + amt, h), txs)
        } else {
            (a, txs)
        },
        TxType::Withdrawal => if av >= amt && fits(av - amt, h) {
            (a.with_balances(av - amt, h), txs)
        } else {
            (a, txs)
        },
        TxType::Dispute => if txs.contains_key(t.tx) && !txs[t.tx].disputed {
            let s = txs[t.tx];
            let x = s.amount.value as int;
            if fits(av - x, h + x) {
                (a.with_balances(av - x, h + x), txs.insert(t.tx, Tx { disputed: true, ..s }))
            } else {
                (a, txs)
            }
        } else {
            (a, txs)
        },
        TxType::Resolve => if txs.contains_key(t.tx) && txs[t.tx].disputed {
            let s = txs[t.tx];
            let x = s.amount.value as int;
            if fits(av + x, h - x) {
                (a.with_balances(av + x, h - x), txs.insert(t.tx, Tx { disputed: false, ..s }))
            } else {
                (a, txs)
            }
        } else {
            (a, txs)
        },
        TxType::Chargeback => if txs.contains_key(t.tx) && txs[t.tx].disputed {
            let x = txs[t.tx].amount.value as int;
            if fits(av, h - x) {
                (Account { locked: true, ..a.with_balances(av, h - x) }, txs)
            } else {
                (a, txs)
            }
        } else {
            (a, txs)
        },
    }
}

/// The ledger after applying record `t`.
///
/// A locked account ignores every record. Otherwise the client's account is
/// created if absent, `t` is dispatched, and a deposit or withdrawal is then
/// stored under its id, not under dispute, replacing any earlier record there.
pub open spec fn step(l: LedgerView, t: Tx) -> LedgerView {
    let a = account_of(l.accounts, t.client);
    if a.locked {
        l
    } else {
        let (a2, txs2) = dispatch(a, l.txs, t);
        LedgerView {
            txs: if t.is_stored_kind() { txs2.insert(t.tx, Tx { disputed: false, ..t }) } else { txs2 },
            accounts: l.accounts.insert(t.client, a2),
        }
    }
}

/// The accounts as exported: sorted by client id, each with its total.
pub open spec fn is_snapshot(accounts: Map<u16, Account>, r: Seq<Account>) -> bool {
    &&& forall|i: int| 0 <= i < r.len() ==> #[trigger] accounts.contains_key(r[i].client)
        && r[i] == accounts[r[i].client].totaled()
    &&& forall|i: int, j: int| 0 <= i < j < r.len() ==> r[i].client < r[j].client
    &&& forall|c: u16| #[trigger] accounts.contains_key(c) ==> exists|i: int| 0 <= i < r.len() && r[i].client == c
}

/// The account of `client` in `accounts`, if it has one.
pub fn lookup_account(accounts: &HashMap<u16, Account>, client: u16) -> (r: Option<Account>)
    ensures
        r == (if accounts@.contains_key(client) { Some(accounts@[client]) } else { None::<Account> }),
{
    match accounts.get(&client) {
        Some(a) => Some(*a),
        None => None,
    }
}

/// The record stored under `tx` in `txs`, if any.
pub fn lookup_transaction(txs: &HashMap<u32, Tx>, tx: u32) -> (r: Option<Tx>)
    ensures
        r == (if txs@.contains_key(tx) { Some(txs@[tx]) } else { None::<Tx> }),
{
    match txs.get(&tx) {
        Some(t) => Some(*t),
        None => None,
    }
}

/// The accounts in `accounts` in ascending client order, each with its total.
pub fn snapshot(accounts: &HashMap<u16, Account>) -> (r: Vec<Account>)
    requires
        accounts_wf(accounts@),
    ensures
        is_snapshot(accounts@, r@),
{
    let mut r: Vec<Account> = Vec::new();
    let mut c: u32 = 0;
    while c <= 0xffff
        invariant
            c <= 0x1_0000,
            accounts_wf(accounts@),
            forall|i: int| 0 <= i < r@.len() ==> #[trigger] accounts@.contains_key(r@[i].client)
                && r@[i] == accounts@[r@[i].client].totaled() && r@[i].client < c,
            forall|i: int, j: int| 0 <= i < j < r@.len() ==> r@[i].client < r@[j].client,
            forall|k: u16| #[trigger] accounts@.contains_key(k) && k < c ==> exists|i: int|
                0 <= i < r@.len() && r@[i].client == k,
        decreases 0x1_0000 - c,
    {
        let k = c as u16;
        match accounts.get(&k) {
            Some(a) => {
                let mut a = *a;
                a.calculate_total();
                let ghost r0 = r@;
                r.push(a);
                assert(r@ == r0.push(a));
                assert(a.client == k);
                assert forall|i: int| 0 <= i < r0.len() implies #[trigger] r0[i].client < c by {
                    assert(accounts@.contains_key(r0[i].client));
                }
                assert forall|j: u16| #[trigger] accounts@.contains_key(j) && j < c + 1 implies exists|i: int|
                    0 <= i < r@.len() && r@[i].client == j by {
                    if j < c {
                        let i0 = choose|i: int| 0 <= i < r0.len() && r0[i].client == j;
                        assert(r@[i0] == r0[i0]);
                    } else {
                        assert(r@[r0.len() as int].client == j);
                    }
                }
            },
            None => {},
        }
        c = c + 1;
    }
    assert forall|j: u16| #[trigger] accounts@.contains_key(j) implies exists|i: int|
        0 <= i < r@.len() && r@[i].client == j by {
        assert(accounts@.contains_key(j) && j < c);
    }
    r
}

/// The stored history with `t` put under its id, replacing any earlier record.
pub open spec fn stored(txs: Map<u32, Tx>, t: Tx) -> Map<u32, Tx> {
    txs.insert(t.tx, t)
}

/// Account state and stored transaction history.
pub struct Ledger {
    pub transactions: HashMap<u32, Tx>,
    pub accounts: HashMap<u16, Account>,
}

impl View for Ledger {
    type V = LedgerView;

    open spec fn view(&self) -> LedgerView {
        LedgerView { txs: self.transactions@, accounts: self.accounts@ }
    }
}

impl Ledger {
    pub open spec fn wf(&self) -> bool {
        view_wf(self@)
    }

    /// An empty ledger.
    pub fn new() -> (r: Ledger)
        ensures
            r.wf(),
            r@.txs.is_empty(),
            r@.accounts.is_empty(),
    {
        let r = Ledger { transactions: HashMap::new(), accounts: HashMap::new() };
        assert(r@.txs =~= Map::empty());
        assert(r@.accounts =~= Map::empty());
        r
    }

    /// The account of `client`, if it has been referenced.
    pub fn get_account(&self, client: u16) -> (r: Option<Account>)
        ensures
            r == (if self@.accounts.contains_key(client) {
                Some(self@.accounts[client])
            } else {
                None::<Account>
            }),
    {
        lookup_account(&self.accounts, client)
    }

    /// The deposit or withdrawal stored under `tx`, if any.
    pub fn get_stored_transaction(&self, tx: u32) -> (r: Option<Tx>)
        ensures
            r == (if self@.txs.contains_key(tx) { Some(self@.txs[tx]) } else { None::<Tx> }),
    {
        lookup_transaction(&self.transactions, tx)
    }

    /// The number of stored records.
    pub fn transaction_count(&self) -> (r: usize)
        ensures
            r == self@.txs.len(),
    {
        self.transactions.len()
    }

    /// Stores a deposit or withdrawal under its id, replacing any earlier one.
    pub fn store_transaction(&mut self, t: Tx)
        requires
            old(self).wf(),
            t.is_stored_kind(),
        ensures
            final(self).wf(),
            final(self)@.txs == stored(old(self)@.txs, t),
            final(self)@.accounts == old(self)@.accounts,
    {
        self.transactions.insert(t.tx, t);
    }

    /// All accounts in ascending client order, each with its total.
    pub fn snapshot_accounts(&self) -> (r: Vec<Account>)
        requires
            self.wf(),
        ensures
            is_snapshot(self@.accounts, r@),
    {
        snapshot(&self.accounts)
    }

}

} // verus!
