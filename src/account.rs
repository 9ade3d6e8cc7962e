use vstd::prelude::*;
use crate::amount::Amount;

verus! {

/// Whether `v` fits in an `i64`.
pub open spec fn in_i64(v: int) -> bool {
    i64::MIN <= v <= i64::MAX
}

/// Whether balances `available` and `held` both fit in an `i64`.
pub open spec fn fits(available: int, held: int) -> bool {
    in_i64(available) && in_i64(held)
}

/// `v`, or the nearest bound of `i64` where it does not fit.
pub open spec fn clamp_i64(v: int) -> i64 {
    if v > i64::MAX {
        i64::MAX
    } else if v < i64::MIN {
        i64::MIN
    } else {
        v as i64
    }
}

/// The balance state of one client.
#[derive(Debug, Clone, Copy, PartialEq, Eq, Structural)]
pub struct Account {
    pub client: u16,
    pub available: Amount,
    pub held: Amount,
    /// `available + held`, filled in by `calculate_total` for export only.
    pub total: Amount,
    pub locked: bool,
}

impl Account {
    /// The state of an account that nothing has touched yet.
    pub open spec fn fresh(client: u16) -> Account {
        Account {
            client,
            available: Amount { value: 0 },
            held: Amount { value: 0 },
            total: Amount { value: 0 },
            locked: false,
        }
    }

    /// The account's balances fit in an `i64`.
    pub open spec fn wf(self) -> bool {
        fits(self.available.value as int, self.held.value as int)
    }

    /// This account with its `total` set to `available + held`, held to the
    /// range of an `i64`.
    pub open spec fn totaled(self) -> Account {
        Account {
            total: Amount { value: clamp_i64(self.available.value + self.held.value) },
            ..self
        }
    }

    /// This account with the given balances.
    pub open spec fn with_balances(self, available: int, held: int) -> Account {
        Account {
            available: Amount { value: available as i64 },
            held: Amount { value: held as i64 },
            ..self
        }
    }

    pub fn new(client: u16) -> (r: Account)
        ensures
            r == Account::fresh(client),
    {
        Account {
            client,
            available: Amount::new(),
            held: Amount::new(),
            total: Amount::new(),
            locked: false,
        }
    }

    /// Sets `total` to `available + held`, held to the range of an `i64`.
    pub fn calculate_total(&mut self)
        ensures
            *final(self) == old(self).totaled(),
    {
        let sum = self.available.value as i128 + self.held.value as i128;
        let total: i64 = if sum > i64::MAX as i128 {
            i64::MAX
        } else if sum < i64::MIN as i128 {
            i64::MIN
        } else {
            sum as i64
        };
        self.total = Amount { value: total };
    }

    /// This account with the given balances, where they fit in an `i64`.
    pub fn rebalanced(&self, available: i128, held: i128) -> (r: Option<Account>)
        requires
            -0x4_0000_0000_0000_0000 < available < 0x4_0000_0000_0000_0000,
            -0x4_0000_0000_0000_0000 < held < 0x4_0000_0000_0000_0000,
        ensures
            r == (if fits(available as int, held as int) {
                Some(self.with_balances(available as int, held as int))
            } else {
                None
            }),
    {
        let lo = i64::MIN as i128;
        let hi = i64::MAX as i128;
        if lo <= available && available <= hi && lo <= held && held <= hi {
            Some(Account {
                available: Amount { value: available as i64 },
                held: Amount { value: held as i64 },
                ..*self
            })
        } else {
            None
        }
    }
}

} // verus!
