use vstd::prelude::*;
use crate::account::{fits, in_i64, Account};
use crate::ledger::{account_of, step, view_wf, LedgerView};
use crate::transaction::{Tx, TxType};

verus! {

/// The ledger that replaying `ts` in order from an empty ledger gives.
pub open spec fn replay(ts: Seq<Tx>) -> LedgerView
    decreases ts.len(),
{
    if ts.len() == 0 {
        LedgerView { txs: Map::empty(), accounts: Map::empty() }
    } else {
        step(replay(ts.drop_last()), ts.last())
    }
}

/// Client `c`'s deposits in `ts` minus those of its withdrawals that did not
/// exceed what was available when they came.
pub open spec fn net_funds(ts: Seq<Tx>, c: u16) -> int
    decreases ts.len(),
{
    if ts.len() == 0 {
        0
    } else {
        let prev = net_funds(ts.drop_last(), c);
        let t = ts.last();
        let amt = t.amount.value as int;
        if t.client != c {
            prev
        } else if t.type_ is Deposit {
            prev + amt
        } else if t.type_ is Withdrawal && prev >= amt {
            prev - amt
        } else {
            prev
        }
    }
}

/// Whether every record of `ts` is a deposit or a withdrawal.
pub open spec fn only_moves(ts: Seq<Tx>) -> bool {
    forall|i: int| 0 <= i < ts.len() ==> (#[trigger] ts[i]).is_stored_kind()
}

/// A record of kind `k` by `client` about `tx`, with no amount.
pub open spec fn instruction(k: TxType, client: u16, tx: u32) -> Tx {
    Tx { type_: k, client, tx, amount: crate::amount::Amount { value: 0 }, disputed: false }
}

/// Replaying deposits and withdrawals alone leaves each client's available
/// funds at its deposits minus the withdrawals that did not exceed the funds
/// available when they came, with nothing held and the account unlocked,
/// as long as every running balance fits in an `i64`.
pub proof fn lemma_moves_only_balance(ts: Seq<Tx>, c: u16)
    requires
        only_moves(ts),
        forall|k: int| 0 <= k <= ts.len() ==> in_i64(#[trigger] net_funds(ts.take(k), c)),
    ensures
        account_of(replay(ts).accounts, c).available.value == net_funds(ts, c),
        account_of(replay(ts).accounts, c).held.value == 0,
        !account_of(replay(ts).accounts, c).locked,
    decreases ts.len(),
{
    if ts.len() > 0 {
        let p = ts.drop_last();
        assert(ts.take(ts.len() as int) == ts);
        assert forall|k: int| 0 <= k <= p.len() implies in_i64(#[trigger] net_funds(p.take(k), c)) by {
            assert(p.take(k) == ts.take(k));
        }
        assert(only_moves(p)) by {
            assert forall|i: int| 0 <= i < p.len() implies (#[trigger] p[i]).is_stored_kind() by {
                assert(p[i] == ts[i]);
            }
        }
        lemma_moves_only_balance(p, c);
        assert(ts.last() == ts[ts.len() - 1]);
    }
}

/// In a well-formed ledger every client's account, existing or fresh, fits.
proof fn lemma_account_of_wf(l: LedgerView, c: u16)
    requires
        view_wf(l),
    ensures
        account_of(l.accounts, c).wf(),
        account_of(l.accounts, c).client == c,
{
}

/// A dispute of a record not under dispute, followed by a chargeback of it,
/// moves the disputed amount into `held` and then removes it from there,
/// locks the account, and from then on every record of that client leaves
/// the ledger as it is.
pub proof fn lemma_dispute_chargeback(l: LedgerView, c: u16, tx: u32, later: Tx)
    requires
        view_wf(l),
        !account_of(l.accounts, c).locked,
        l.txs.contains_key(tx),
        !l.txs[tx].disputed,
        fits(
            account_of(l.accounts, c).available.value - l.txs[tx].amount.value,
            account_of(l.accounts, c).held.value + l.txs[tx].amount.value,
        ),
        later.client == c,
    ensures
        ({
            let x = l.txs[tx].amount.value as int;
            let a0 = account_of(l.accounts, c);
            let l1 = step(l, instruction(TxType::Dispute, c, tx));
            let l2 = step(l1, instruction(TxType::Chargeback, c, tx));
            &&& account_of(l1.accounts, c).held.value == a0.held.value + x
            &&& account_of(l1.accounts, c).available.value == a0.available.value - x
            &&& account_of(l2.accounts, c).held.value == account_of(l1.accounts, c).held.value - x
            &&& account_of(l2.accounts, c).available.value == a0.available.value - x
            &&& account_of(l2.accounts, c).locked
            &&& step(l2, later) == l2
        }),
{
    let x = l.txs[tx].amount.value as int;
    let a0 = account_of(l.accounts, c);
    let l1 = step(l, instruction(TxType::Dispute, c, tx));
    lemma_account_of_wf(l, c);
    assert(l1.txs[tx].disputed);
    assert(fits(a0.available.value - x, a0.held.value + x - x));
}

/// A dispute of a record not under dispute, followed by a resolve of it,
/// gives the account back its balances from before the dispute and clears
/// the record's disputed flag; a second resolve of that record then changes
/// nothing.
pub proof fn lemma_dispute_resolve(l: LedgerView, c: u16, tx: u32)
    requires
        view_wf(l),
        !account_of(l.accounts, c).locked,
        l.txs.contains_key(tx),
        !l.txs[tx].disputed,
        fits(
            account_of(l.accounts, c).available.value - l.txs[tx].amount.value,
            account_of(l.accounts, c).held.value + l.txs[tx].amount.value,
        ),
    ensures
        ({
            let a0 = account_of(l.accounts, c);
            let l1 = step(l, instruction(TxType::Dispute, c, tx));
            let l2 = step(l1, instruction(TxType::Resolve, c, tx));
            &&& account_of(l2.accounts, c).available == a0.available
            &&& account_of(l2.accounts, c).held == a0.held
            &&& !l2.txs[tx].disputed
            &&& step(l2, instruction(TxType::Resolve, c, tx)) == l2
        }),
{
    let x = l.txs[tx].amount.value as int;
    let a0 = account_of(l.accounts, c);
    let l1 = step(l, instruction(TxType::Dispute, c, tx));
    let l2 = step(l1, instruction(TxType::Resolve, c, tx));
    assert(l1.txs[tx].disputed);
    assert(fits(a0.available.value - x + x, a0.held.value + x - x));
    assert(l2.accounts.contains_key(c));
    let t3 = instruction(TxType::Resolve, c, tx);
    assert(l2.accounts.insert(c, l2.accounts[c]) == l2.accounts);
    assert(step(l2, t3).accounts == l2.accounts);
    assert(step(l2, t3).txs == l2.txs);
}

/// A dispute of an id under which nothing is stored changes no balance and
/// no stored record; it only brings the client's account into existence.
pub proof fn lemma_dispute_unknown(l: LedgerView, c: u16, tx: u32)
    requires
        !l.txs.contains_key(tx),
    ensures
        ({
            let l1 = step(l, instruction(TxType::Dispute, c, tx));
            &&& l1.txs == l.txs
            &&& account_of(l1.accounts, c) == account_of(l.accounts, c)
            &&& forall|d: u16| d != c ==> #[trigger] l1.accounts.contains_key(d) == l.accounts.contains_key(d)
                && account_of(l1.accounts, d) == account_of(l.accounts, d)
            &&& l.accounts.contains_key(c) ==> l1 == l
        }),
{
    let l1 = step(l, instruction(TxType::Dispute, c, tx));
    if l.accounts.contains_key(c) {
        assert(l.accounts.insert(c, l.accounts[c]) == l.accounts);
    }
}

/// On an existing, unlocked account, a resolve or chargeback of a record
/// that is not under dispute, and a dispute of a record that already is,
/// leave the ledger as it is.
pub proof fn lemma_no_live_dispute(l: LedgerView, c: u16, tx: u32)
    requires
        l.accounts.contains_key(c),
        !l.accounts[c].locked,
    ensures
        !(l.txs.contains_key(tx) && l.txs[tx].disputed) ==> step(
            l,
            instruction(TxType::Resolve, c, tx),
        ) == l && step(l, instruction(TxType::Chargeback, c, tx)) == l,
        l.txs.contains_key(tx) && l.txs[tx].disputed ==> step(
            l,
            instruction(TxType::Dispute, c, tx),
        ) == l,
{
    assert(l.accounts.insert(c, l.accounts[c]) == l.accounts);
}

} // verus!
