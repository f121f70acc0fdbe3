use vstd::prelude::*;
use crate::laws::{lemma_contribution_step, lemma_withdrawal_step};
use crate::lemmas::{lemma_lookup_at, lemma_sum_bounds};
use crate::member::{LedgerError, Member};
use crate::model::{has_key, history, keys_unique, lookup, sum_amounts, with_balance, LedgerState};

verus! {

/// A savings ledger: the contribution log in append order and the balance
/// table, one pair per member that has been credited.
pub struct ChamaSavings {
    initialized: bool,
    contributions: Vec<(Member, i128)>,
    balances: Vec<(Member, i128)>,
}

impl View for ChamaSavings {
    type V = LedgerState;

    closed spec fn view(&self) -> LedgerState {
        LedgerState {
            initialized: self.initialized,
            log: self.contributions@,
            table: self.balances@,
        }
    }
}

/// The position of `m`'s pair in `t`, if it has one.
fn find_member(t: &Vec<(Member, i128)>, m: Member) -> (r: Option<usize>)
    requires
        keys_unique(t@),
    ensures
        match r {
            Some(i) => i < t@.len() && t@[i as int].0 == m && lookup(t@, m) == t@[i as int].1,
            None => !has_key(t@, m) && lookup(t@, m) == 0,
        },
{
    let mut i: usize = 0;
    while i < t.len()
        invariant
            keys_unique(t@),
            i <= t@.len(),
            forall|j: int| 0 <= j < i ==> t@[j].0 != m,
        decreases t@.len() - i,
    {
        if t[i].0 == m {
            proof {
                lemma_lookup_at(t@, i as int, m);
            }
            return Some(i);
        }
        i = i + 1;
    }
    None
}

/// Whether no member has two pairs in `t`.
fn keys_are_unique(t: &Vec<(Member, i128)>) -> (r: bool)
    ensures
        r == keys_unique(t@),
{
    let mut i: usize = 0;
    while i < t.len()
        invariant
            i <= t@.len(),
            forall|a: int, b: int| 0 <= a < b < i ==> t@[a].0 != t@[b].0,
        decreases t@.len() - i,
    {
        let mut j: usize = 0;
        while j < i
            invariant
                i < t@.len(),
                j <= i,
                forall|a: int, b: int| 0 <= a < b < i ==> t@[a].0 != t@[b].0,
                forall|a: int| 0 <= a < j ==> t@[a].0 != t@[i as int].0,
            decreases i - j,
        {
            if t[j].0 == t[i].0 {
                return false;
            }
            j = j + 1;
        }
        i = i + 1;
    }
    true
}

/// Whether every amount of `log` is positive.
fn amounts_positive(log: &Vec<(Member, i128)>) -> (r: bool)
    ensures
        r == forall|i: int| 0 <= i < log@.len() ==> log@[i].1 > 0,
{
    let mut i: usize = 0;
    while i < log.len()
        invariant
            i <= log@.len(),
            forall|j: int| 0 <= j < i ==> log@[j].1 > 0,
        decreases log@.len() - i,
    {
        if log[i].1 <= 0 {
            return false;
        }
        i = i + 1;
    }
    true
}

/// Whether every balance of `t` is non-negative and their sum fits in an `i128`.
fn balances_in_range(t: &Vec<(Member, i128)>) -> (r: bool)
    ensures
        r == ((forall|i: int| 0 <= i < t@.len() ==> t@[i].1 >= 0) && sum_amounts(t@) <= i128::MAX),
{
    let mut total: i128 = 0;
    let mut i: usize = 0;
    assert(t@.subrange(0, 0) =~= seq![]);
    while i < t.len()
        invariant
            i <= t@.len(),
            forall|j: int| 0 <= j < i ==> t@[j].1 >= 0,
            0 <= total,
            total == sum_amounts(t@.subrange(0, i as int)),
        decreases t@.len() - i,
    {
        assert(t@.subrange(0, i + 1).drop_last() =~= t@.subrange(0, i as int));
        let v = t[i].1;
        if v < 0 {
            return false;
        }
        if v > i128::MAX - total {
            proof {
                if forall|j: int| 0 <= j < t@.len() ==> t@[j].1 >= 0 {
                    lemma_sum_bounds(t@, i + 1);
                }
            }
            return false;
        }
        total = total + v;
        i = i + 1;
    }
    assert(t@.subrange(0, i as int) =~= t@);
    true
}

impl ChamaSavings {
    pub open spec fn wf(&self) -> bool {
        self@.wf()
    }

    /// A ledger that has not been initialised: no contributions, no balances.
    pub fn new() -> (r: ChamaSavings)
        ensures
            r.wf(),
            r@ == LedgerState::empty(false),
    {
        let r = ChamaSavings { initialized: false, contributions: Vec::new(), balances: Vec::new() };
        assert(r@.log =~= seq![]);
        assert(r@.table =~= seq![]);
        r
    }

    /// Marks the ledger initialised and empties the log and the balance table,
    /// whatever they held before.
    pub fn initialize(&mut self)
        ensures
            final(self).wf(),
            final(self)@ == LedgerState::empty(true),
    {
        self.initialized = true;
        self.contributions = Vec::new();
        self.balances = Vec::new();
        assert(self@.log =~= seq![]);
        assert(self@.table =~= seq![]);
    }

    /// Rebuilds a ledger from its persisted records: the initialisation marker,
    /// the contribution log and the balance table. Records that no sequence of
    /// operations could have produced are refused with `None`.
    pub fn from_records(
        initialized: bool,
        contributions: Vec<(Member, i128)>,
        balances: Vec<(Member, i128)>,
    ) -> (r: Option<ChamaSavings>)
        ensures
            r is Some <==> (LedgerState { initialized, log: contributions@, table: balances@ }).wf(),
            r matches Some(l) ==> l.wf() && l@ == (LedgerState {
                initialized,
                log: contributions@,
                table: balances@,
            }),
    {
        if contributions.len() > u32::MAX as usize || balances.len() > contributions.len() {
            return None;
        }
        if !keys_are_unique(&balances) || !amounts_positive(&contributions) || !balances_in_range(
            &balances,
        ) {
            return None;
        }
        Some(ChamaSavings { initialized, contributions, balances })
    }

    /// The balance table, one pair per credited member.
    pub fn get_balance_table(&self) -> (r: Vec<(Member, i128)>)
        ensures
            r@ == self@.table,
    {
        let mut r: Vec<(Member, i128)> = Vec::new();
        let mut i: usize = 0;
        while i < self.balances.len()
            invariant
                i <= self.balances@.len(),
                r@ == self.balances@.subrange(0, i as int),
            decreases self.balances@.len() - i,
        {
            r.push(self.balances[i]);
            i = i + 1;
            assert(r@ =~= self.balances@.subrange(0, i as int));
        }
        assert(self.balances@.subrange(0, i as int) =~= self.balances@);
        r
    }

    pub fn is_initialized(&self) -> (r: bool)
        ensures
            r == self@.initialized,
    {
        self.initialized
    }

    /// The current balance of `user`; zero for a member never credited.
    pub fn get_balance(&self, user: Member) -> (r: i128)
        requires
            self.wf(),
        ensures
            r == self@.balance(user),
            r >= 0,
    {
        match find_member(&self.balances, user) {
            Some(i) => self.balances[i].1,
            None => 0,
        }
    }

    /// The sum of every balance in the table.
    pub fn get_total_pool(&self) -> (r: i128)
        requires
            self.wf(),
        ensures
            r == self@.total(),
            r >= 0,
    {
        let mut total: i128 = 0;
        let mut i: usize = 0;
        proof {
            lemma_sum_bounds(self.balances@, 0);
            assert(self.balances@.subrange(0, 0) =~= seq![]);
        }
        while i < self.balances.len()
            invariant
                self.wf(),
                i <= self.balances@.len(),
                total == sum_amounts(self.balances@.subrange(0, i as int)),
            decreases self.balances@.len() - i,
        {
            proof {
                let t = self.balances@;
                assert(t.subrange(0, i + 1).drop_last() =~= t.subrange(0, i as int));
                lemma_sum_bounds(t, i + 1);
            }
            total = total + self.balances[i].1;
            i = i + 1;
        }
        assert(self.balances@.subrange(0, i as int) =~= self.balances@);
        total
    }

    /// Every contribution in append order.
    pub fn get_all_contributions(&self) -> (r: Vec<(Member, i128)>)
        ensures
            r@ == self@.log,
    {
        let mut r: Vec<(Member, i128)> = Vec::new();
        let mut i: usize = 0;
        while i < self.contributions.len()
            invariant
                i <= self.contributions@.len(),
                r@ == self.contributions@.subrange(0, i as int),
            decreases self.contributions@.len() - i,
        {
            r.push(self.contributions[i]);
            i = i + 1;
            assert(r@ =~= self.contributions@.subrange(0, i as int));
        }
        assert(self.contributions@.subrange(0, i as int) =~= self.contributions@);
        r
    }

    /// The amounts that `user` contributed, in the order they were made.
    pub fn get_contribution_history(&self, user: Member) -> (r: Vec<i128>)
        ensures
            r@ == history(self@.log, user),
    {
        let mut r: Vec<i128> = Vec::new();
        let mut i: usize = 0;
        assert(self.contributions@.subrange(0, 0) =~= seq![]);
        while i < self.contributions.len()
            invariant
                i <= self.contributions@.len(),
                r@ == history(self.contributions@.subrange(0, i as int), user),
            decreases self.contributions@.len() - i,
        {
            let (who, amount) = self.contributions[i];
            assert(self.contributions@.subrange(0, i + 1).drop_last() =~= self.contributions@.subrange(
                0,
                i as int,
            ));
            if who == user {
                r.push(amount);
            }
            i = i + 1;
        }
        assert(self.contributions@.subrange(0, i as int) =~= self.contributions@);
        r
    }

    /// The pool, the number of logged contributions and the number of members
    /// in the balance table.
    pub fn get_stats(&self) -> (r: (i128, u32, u32))
        requires
            self.wf(),
        ensures
            r.0 == self@.total(),
            r.1 == self@.log.len(),
            r.2 == self@.table.len(),
    {
        let total_pool = self.get_total_pool();
        (total_pool, self.contributions.len() as u32, self.balances.len() as u32)
    }

    /// Sets the balance of `m` to `v` in the table.
    fn set_balance(&mut self, m: Member, v: i128)
        requires
            keys_unique(old(self).balances@),
        ensures
            final(self).balances@ == with_balance(old(self).balances@, m, v),
            final(self).contributions@ == old(self).contributions@,
            final(self).initialized == old(self).initialized,
    {
        match find_member(&self.balances, m) {
            Some(i) => {
                proof {
                    lemma_lookup_at(self.balances@, i as int, m);
                }
                self.balances.set(i, (m, v));
            },
            None => {
                self.balances.push((m, v));
            },
        }
    }

    /// Credits `amount` to `user` and appends `(user, amount)` to the log.
    /// `caller` is the member the host authenticated. A rejected call changes
    /// nothing.
    pub fn contribute(&mut self, caller: Member, user: Member, amount: i128) -> (r: Result<
        (),
        LedgerError,
    >)
        requires
            old(self).wf(),
        ensures
            final(self).wf(),
            r == old(self)@.contribute_outcome(caller, user, amount),
            r is Ok ==> final(self)@ == old(self)@.after_contribution(user, amount),
            r is Err ==> final(self)@ == old(self)@,
    {
        if amount <= 0 {
            return Err(LedgerError::InvalidAmount);
        }
        if caller != user {
            return Err(LedgerError::Unauthorized);
        }
        let total = self.get_total_pool();
        if amount > i128::MAX - total || self.contributions.len() >= u32::MAX as usize {
            return Err(LedgerError::Overflow);
        }
        let current = self.get_balance(user);
        let ghost before = self@;
        proof {
            lemma_contribution_step(before, user, amount);
        }
        let new_balance = current + amount;
        self.contributions.push((user, amount));
        self.set_balance(user, new_balance);
        Ok(())
    }

    /// Debits `amount` from `user` and returns the new balance. The log is
    /// left as it is. `caller` is the member the host authenticated. A
    /// rejected call changes nothing.
    pub fn withdraw(&mut self, caller: Member, user: Member, amount: i128) -> (r: Result<
        i128,
        LedgerError,
    >)
        requires
            old(self).wf(),
        ensures
            final(self).wf(),
            r == old(self)@.withdraw_outcome(caller, user, amount),
            r is Ok ==> final(self)@ == old(self)@.after_withdrawal(user, amount),
            r is Err ==> final(self)@ == old(self)@,
    {
        if amount <= 0 {
            return Err(LedgerError::InvalidAmount);
        }
        if caller != user {
            return Err(LedgerError::Unauthorized);
        }
        let current = self.get_balance(user);
        if current < amount {
            return Err(LedgerError::InsufficientBalance);
        }
        let new_balance = current - amount;
        let ghost before = self@;
        proof {
            lemma_withdrawal_step(before, user, amount);
        }
        self.set_balance(user, new_balance);
        Ok(new_balance)
    }
}

} // verus!
