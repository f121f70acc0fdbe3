use vstd::prelude::*;
use crate::member::{LedgerError, Member};

verus! {

/// Sum of the amounts in a sequence of (member, amount) pairs.
pub open spec fn sum_amounts(t: Seq<(Member, i128)>) -> int
    decreases t.len(),
{
    if t.len() == 0 {
        0
    } else {
        sum_amounts(t.drop_last()) + t.last().1
    }
}

/// Whether some pair of `t` belongs to `m`.
pub open spec fn has_key(t: Seq<(Member, i128)>, m: Member) -> bool {
    exists|i: int| 0 <= i < t.len() && t[i].0 == m
}

/// A position of `t` whose pair belongs to `m` (meaningful when `has_key`).
pub open spec fn key_index(t: Seq<(Member, i128)>, m: Member) -> int {
    choose|i: int| 0 <= i < t.len() && t[i].0 == m
}

/// The amount that `t` records for `m`; a member without a pair reads as zero.
pub open spec fn lookup(t: Seq<(Member, i128)>, m: Member) -> int {
    if has_key(t, m) {
        t[key_index(t, m)].1 as int
    } else {
        0
    }
}

/// No member has two pairs in `t`.
pub open spec fn keys_unique(t: Seq<(Member, i128)>) -> bool {
    forall|i: int, j: int| 0 <= i < j < t.len() ==> t[i].0 != t[j].0
}

/// `t` with the amount of `m` replaced by `v`, or with `(m, v)` appended when
/// `m` had no pair yet.
pub open spec fn with_balance(t: Seq<(Member, i128)>, m: Member, v: i128) -> Seq<(Member, i128)> {
    if has_key(t, m) {
        t.update(key_index(t, m), (m, v))
    } else {
        t.push((m, v))
    }
}

/// The amounts that `log` records for `m`, in log order.
pub open spec fn history(log: Seq<(Member, i128)>, m: Member) -> Seq<i128>
    decreases log.len(),
{
    if log.len() == 0 {
        seq![]
    } else if log.last().0 == m {
        history(log.drop_last(), m).push(log.last().1)
    } else {
        history(log.drop_last(), m)
    }
}

/// The members of a balance table, in table order.
pub open spec fn members_of(t: Seq<(Member, i128)>) -> Seq<Member> {
    t.map_values(|e: (Member, i128)| e.0)
}

/// The abstract ledger: the initialisation marker, the contribution log in
/// append order, and the balance table.
pub ghost struct LedgerState {
    pub initialized: bool,
    pub log: Seq<(Member, i128)>,
    pub table: Seq<(Member, i128)>,
}

impl LedgerState {
    /// An empty ledger.
    pub open spec fn empty(initialized: bool) -> LedgerState {
        LedgerState { initialized, log: seq![], table: seq![] }
    }

    pub open spec fn balance(self, m: Member) -> int {
        lookup(self.table, m)
    }

    /// The pool: the sum of every balance in the table.
    pub open spec fn total(self) -> int {
        sum_amounts(self.table)
    }

    pub open spec fn wf(self) -> bool {
        &&& keys_unique(self.table)
        &&& forall|i: int| 0 <= i < self.table.len() ==> self.table[i].1 >= 0
        &&& forall|i: int| 0 <= i < self.log.len() ==> self.log[i].1 > 0
        &&& self.total() <= i128::MAX
        &&& self.log.len() <= u32::MAX
        &&& self.table.len() <= self.log.len()
    }

    /// Whether `amount` more fits in the pool and one more entry in the log.
    pub open spec fn has_room_for(self, amount: i128) -> bool {
        &&& self.total() + amount <= i128::MAX
        &&& self.log.len() < u32::MAX
    }

    /// What `contribute` answers on this state.
    pub open spec fn contribute_outcome(self, caller: Member, user: Member, amount: i128) -> Result<
        (),
        LedgerError,
    > {
        if amount <= 0 {
            Err(LedgerError::InvalidAmount)
        } else if caller != user {
            Err(LedgerError::Unauthorized)
        } else if !self.has_room_for(amount) {
            Err(LedgerError::Overflow)
        } else {
            Ok(())
        }
    }

    /// The state after a successful contribution of `amount` by `user`.
    pub open spec fn after_contribution(self, user: Member, amount: i128) -> LedgerState {
        LedgerState {
            initialized: self.initialized,
            log: self.log.push((user, amount)),
            table: with_balance(self.table, user, (self.balance(user) + amount) as i128),
        }
    }

    /// What `withdraw` answers on this state: the new balance, or the error.
    pub open spec fn withdraw_outcome(self, caller: Member, user: Member, amount: i128) -> Result<
        i128,
        LedgerError,
    > {
        if amount <= 0 {
            Err(LedgerError::InvalidAmount)
        } else if caller != user {
            Err(LedgerError::Unauthorized)
        } else if self.balance(user) < amount {
            Err(LedgerError::InsufficientBalance)
        } else {
            Ok((self.balance(user) - amount) as i128)
        }
    }

    /// The state after a successful withdrawal of `amount` by `user`.
    pub open spec fn after_withdrawal(self, user: Member, amount: i128) -> LedgerState {
        LedgerState {
            initialized: self.initialized,
            log: self.log,
            table: with_balance(self.table, user, (self.balance(user) - amount) as i128),
        }
    }

    /// The state after successful contributions of each of `amounts` by `user`, in order.
    pub open spec fn after_contributions(self, user: Member, amounts: Seq<i128>) -> LedgerState
        decreases amounts.len(),
    {
        if amounts.len() == 0 {
            self
        } else {
            self.after_contributions(user, amounts.drop_last()).after_contribution(
                user,
                amounts.last(),
            )
        }
    }
}

/// Sum of a sequence of amounts.
pub open spec fn sum_seq(s: Seq<i128>) -> int
    decreases s.len(),
{
    if s.len() == 0 {
        0
    } else {
        sum_seq(s.drop_last()) + s.last()
    }
}

} // verus!
