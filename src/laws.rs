use vstd::prelude::*;
use crate::lemmas::{lemma_lookup_at, lemma_sum_bounds, lemma_with_balance};
use crate::member::Member;
use crate::model::{has_key, history, key_index, lookup, members_of, sum_amounts, sum_seq, LedgerState};

verus! {

/// Sum of the balances that `s` reports for each of `ms`.
pub open spec fn sum_balances(s: LedgerState, ms: Seq<Member>) -> int
    decreases ms.len(),
{
    if ms.len() == 0 {
        0
    } else {
        sum_balances(s, ms.drop_last()) + s.balance(ms.last())
    }
}

/// No balance of a well-formed ledger is negative.
pub proof fn lemma_balance_nonnegative(s: LedgerState, m: Member)
    requires
        s.wf(),
    ensures
        s.balance(m) >= 0,
{
    if has_key(s.table, m) {
        let i = key_index(s.table, m);
        assert(s.table[i].1 >= 0);
    }
}

/// The balances of the first `n` members of the table sum to the first `n` amounts.
proof fn lemma_prefix_balances(s: LedgerState, n: int)
    requires
        s.wf(),
        0 <= n <= s.table.len(),
    ensures
        sum_balances(s, members_of(s.table).subrange(0, n)) == sum_amounts(s.table.subrange(0, n)),
    decreases n,
{
    let t = s.table;
    let ms = members_of(t);
    if n == 0 {
        assert(ms.subrange(0, 0) =~= seq![]);
        assert(t.subrange(0, 0) =~= seq![]);
    } else {
        lemma_prefix_balances(s, n - 1);
        assert(ms.subrange(0, n).drop_last() =~= ms.subrange(0, n - 1));
        assert(t.subrange(0, n).drop_last() =~= t.subrange(0, n - 1));
        lemma_lookup_at(t, n - 1, t[n - 1].0);
    }
}

/// The pool equals the sum of the balances of the members in the table, and
/// every other member's balance is zero.
pub proof fn lemma_pool_is_sum_of_balances(s: LedgerState)
    requires
        s.wf(),
    ensures
        s.total() == sum_balances(s, members_of(s.table)),
        forall|m: Member| !members_of(s.table).contains(m) ==> s.balance(m) == 0,
{
    let t = s.table;
    let ms = members_of(t);
    let n = t.len() as int;
    lemma_prefix_balances(s, n);
    assert(ms.subrange(0, n) =~= ms);
    assert(t.subrange(0, n) =~= t);
    assert forall|m: Member| !members_of(s.table).contains(m) implies s.balance(m) == 0 by {
        if has_key(t, m) {
            let i = key_index(t, m);
            assert(ms[i] == m);
        }
    }
}

/// A successful contribution keeps the ledger well formed, credits exactly
/// the contributor, grows the pool by the amount, and appends the amount to
/// the contributor's history alone.
pub proof fn lemma_contribution_step(s: LedgerState, user: Member, amount: i128)
    requires
        s.wf(),
        amount > 0,
        s.has_room_for(amount),
    ensures
        s.after_contribution(user, amount).wf(),
        s.after_contribution(user, amount).balance(user) == s.balance(user) + amount,
        forall|k: Member| k != user ==> s.after_contribution(user, amount).balance(k) == s.balance(k),
        s.after_contribution(user, amount).total() == s.total() + amount,
        s.after_contribution(user, amount).log.len() == s.log.len() + 1,
        forall|k: Member|
            history(s.after_contribution(user, amount).log, k) == if k == user {
                history(s.log, k).push(amount)
            } else {
                history(s.log, k)
            },
{
    let t = s.table;
    let next = s.after_contribution(user, amount);
    lemma_sum_bounds(t, 0);
    if has_key(t, user) {
        lemma_lookup_at(t, key_index(t, user), user);
    }
    lemma_with_balance(t, user, (s.balance(user) + amount) as i128);
    assert forall|i: int| 0 <= i < next.log.len() implies next.log[i].1 > 0 by {
        if i < s.log.len() {
            assert(next.log[i] == s.log[i]);
        }
    }
    assert forall|k: Member|
        history(next.log, k) == if k == user {
            history(s.log, k).push(amount)
        } else {
            history(s.log, k)
        } by {
        assert(next.log.drop_last() =~= s.log);
    }
}

/// A successful withdrawal keeps the ledger well formed, debits exactly the
/// member, shrinks the pool by the amount, and leaves the log unchanged.
pub proof fn lemma_withdrawal_step(s: LedgerState, user: Member, amount: i128)
    requires
        s.wf(),
        amount > 0,
        s.balance(user) >= amount,
    ensures
        s.after_withdrawal(user, amount).wf(),
        s.after_withdrawal(user, amount).balance(user) == s.balance(user) - amount,
        forall|k: Member| k != user ==> s.after_withdrawal(user, amount).balance(k) == s.balance(k),
        s.after_withdrawal(user, amount).total() == s.total() - amount,
        s.after_withdrawal(user, amount).log == s.log,
{
    let t = s.table;
    assert(has_key(t, user));
    lemma_with_balance(t, user, (s.balance(user) - amount) as i128);
}

/// Contributions of `amounts` by one member, each of which succeeds, raise
/// that member's balance by their sum and append them, in order, to the
/// member's history.
pub proof fn lemma_contributions_accumulate(s: LedgerState, user: Member, amounts: Seq<i128>)
    requires
        s.wf(),
        forall|i: int| 0 <= i < amounts.len() ==> amounts[i] > 0,
        s.total() + sum_seq(amounts) <= i128::MAX,
        s.log.len() + amounts.len() <= u32::MAX,
    ensures
        s.after_contributions(user, amounts).wf(),
        s.after_contributions(user, amounts).balance(user) == s.balance(user) + sum_seq(amounts),
        s.after_contributions(user, amounts).total() == s.total() + sum_seq(amounts),
        s.after_contributions(user, amounts).log.len() == s.log.len() + amounts.len(),
        history(s.after_contributions(user, amounts).log, user) == history(s.log, user) + amounts,
    decreases amounts.len(),
{
    if amounts.len() == 0 {
        assert(history(s.log, user) + amounts =~= history(s.log, user));
    } else {
        let init = amounts.drop_last();
        let a = amounts.last();
        lemma_contributions_accumulate(s, user, init);
        let mid = s.after_contributions(user, init);
        lemma_contribution_step(mid, user, a);
        assert(history(s.log, user) + amounts =~= (history(s.log, user) + init).push(a));
    }
}

} // verus!
