use vstd::prelude::*;
use crate::amount::{decimal_amount, Amount};
use crate::account::Account;
use crate::ledger::{step, Ledger};
use vstd::string::StringSliceAdditionalSpecFns;

verus! {

/// The kind of a transaction record.
#[derive(Debug, Clone, Copy, PartialEq, Eq, Structural)]
pub enum TxType {
    Deposit,
    Withdrawal,
    Dispute,
    Resolve,
    Chargeback,
}

/// One transaction record.
///
/// `amount` counts for deposits and withdrawals only. `disputed` is false when
/// a record is read and is changed only by the ledger on a stored record.
#[derive(Debug, Clone, Copy, PartialEq, Eq, Structural)]
pub struct Tx {
    pub type_: TxType,
    pub client: u16,
    pub tx: u32,
    pub amount: Amount,
    pub disputed: bool,
}

impl TxType {
    /// The kind that the lowercase name `s` denotes, if any.
    pub open spec fn named(s: Seq<u8>) -> Option<TxType> {
        if s == seq![100u8, 101, 112, 111, 115, 105, 116] {
            Some(TxType::Deposit)
        } else if s == seq![119u8, 105, 116, 104, 100, 114, 97, 119, 97, 108] {
            Some(TxType::Withdrawal)
        } else if s == seq![100u8, 105, 115, 112, 117, 116, 101] {
            Some(TxType::Dispute)
        } else if s == seq![114u8, 101, 115, 111, 108, 118, 101] {
            Some(TxType::Resolve)
        } else if s == seq![99u8, 104, 97, 114, 103, 101, 98, 97, 99, 107] {
            Some(TxType::Chargeback)
        } else {
            None
        }
    }

    /// Reads a kind from its name: `deposit`, `withdrawal`, `dispute`,
    /// `resolve` or `chargeback`, exactly and in lower case.
    pub fn from_name(s: &str) -> (r: Option<TxType>)
        ensures
            r == TxType::named(s.spec_bytes()),
    {
        let b = s.as_bytes();
        if bytes_eq(b, &[100u8, 101, 112, 111, 115, 105, 116]) {
            Some(TxType::Deposit)
        } else if bytes_eq(b, &[119u8, 105, 116, 104, 100, 114, 97, 119, 97, 108]) {
            Some(TxType::Withdrawal)
        } else if bytes_eq(b, &[100u8, 105, 115, 112, 117, 116, 101]) {
            Some(TxType::Dispute)
        } else if bytes_eq(b, &[114u8, 101, 115, 111, 108, 118, 101]) {
            Some(TxType::Resolve)
        } else if bytes_eq(b, &[99u8, 104, 97, 114, 103, 101, 98, 97, 99, 107]) {
            Some(TxType::Chargeback)
        } else {
            None
        }
    }
}

/// Whether two byte strings are equal.
fn bytes_eq(a: &[u8], b: &[u8]) -> (r: bool)
    ensures
        r == (a@ == b@),
{
    if a.len() != b.len() {
        return false;
    }
    let mut i: usize = 0;
    while i < a.len()
        invariant
            a@.len() == b@.len(),
            i <= a@.len(),
            a@.take(i as int) == b@.take(i as int),
        decreases a@.len() - i,
    {
        if a[i] != b[i] {
            assert(a@[i as int] != b@[i as int]);
            return false;
        }
        assert(a@.take(i + 1) == a@.take(i as int).push(a@[i as int]));
        assert(b@.take(i + 1) == b@.take(i as int).push(b@[i as int]));
        i = i + 1;
    }
    assert(a@ == a@.take(i as int));
    assert(b@ == b@.take(i as int));
    true
}

impl Tx {
    /// The record that a row with these fields denotes, or `None` where `kind`
    /// names no kind. An absent amount counts as zero; see
    /// `Amount::from_decimal_str` for a present one.
    pub fn from_row(kind: &str, client: u16, tx: u32, amount: Option<&str>) -> (r: Option<Tx>)
        ensures
            r == match TxType::named(kind.spec_bytes()) {
                Some(k) => Some(
                    Tx {
                        type_: k,
                        client,
                        tx,
                        amount: Amount {
                            value: match amount {
                                Some(a) => decimal_amount(a.spec_bytes()) as i64,
                                None => 0i64,
                            },
                        },
                        disputed: false,
                    },
                ),
                None => None::<Tx>,
            },
    {
        match TxType::from_name(kind) {
            Some(k) => {
                let amount = match amount {
                    Some(a) => Amount::from_decimal_str(a),
                    None => Amount::new(),
                };
                Some(Tx { type_: k, client, tx, amount, disputed: false })
            },
            None => None,
        }
    }

    /// Applies this record to `ledger`; see `step`.
    pub fn process(self, ledger: &mut Ledger)
        requires
            old(ledger).wf(),
        ensures
            final(ledger).wf(),
            final(ledger)@ == step(old(ledger)@, self),
    {
        let t = self;
        let a = match ledger.accounts.get(&t.client) {
            Some(a) => *a,
            None => Account::new(t.client),
        };
        if a.locked {
            return;
        }
        let av = a.available.value as i128;
        let h = a.held.value as i128;
        let amt = t.amount.value as i128;
        let mut a2 = a;
        match t.type_ {
            TxType::Deposit => {
                if let Some(n) = a.rebalanced(av + amt, h) {
                    a2 = n;
                }
            },
            TxType::Withdrawal => {
                if av >= amt {
                    if let Some(n) = a.rebalanced(av - amt, h) {
                        a2 = n;
                    }
                }
            },
            TxType::Dispute => {
                if let Some(s) = ledger.transactions.get(&t.tx) {
                    let s = *s;
                    if !s.disputed {
                        let x = s.amount.value as i128;
                        if let Some(n) = a.rebalanced(av - x, h + x) {
                            a2 = n;
                            ledger.transactions.insert(t.tx, Tx { disputed: true, ..s });
                        }
                    }
                }
            },
            TxType::Resolve => {
                if let Some(s) = ledger.transactions.get(&t.tx) {
                    let s = *s;
                    if s.disputed {
                        let x = s.amount.value as i128;
                        if let Some(n) = a.rebalanced(av + x, h - x) {
                            a2 = n;
                            ledger.transactions.insert(t.tx, Tx { disputed: false, ..s });
                        }
                    }
                }
            },
            TxType::Chargeback => {
                if let Some(s) = ledger.transactions.get(&t.tx) {
                    let s = *s;
                    if s.disputed {
                        let x = s.amount.value as i128;
                        if let Some(n) = a.rebalanced(av, h - x) {
                            a2 = Account { locked: true, ..n };
                        }
                    }
                }
            },
        }
        ledger.accounts.insert(t.client, a2);
        match t.type_ {
            TxType::Deposit | TxType::Withdrawal => {
                ledger.transactions.insert(t.tx, Tx { disputed: false, ..t });
            },
            _ => {},
        }
    }

    /// Whether this record moves money itself and is kept in the history.
    pub open spec fn is_stored_kind(self) -> bool {
        self.type_ is Deposit || self.type_ is Withdrawal
    }
}

} // verus!
