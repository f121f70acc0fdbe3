use vstd::prelude::*;
use crate::member::Member;
use crate::model::{has_key, key_index, keys_unique, lookup, members_of, sum_amounts, with_balance};

verus! {

/// In a table without duplicate members, the pair at `j` is the one `lookup` reads.
pub proof fn lemma_lookup_at(t: Seq<(Member, i128)>, j: int, m: Member)
    requires
        keys_unique(t),
        0 <= j < t.len(),
        t[j].0 == m,
    ensures
        has_key(t, m),
        key_index(t, m) == j,
        lookup(t, m) == t[j].1,
{
    let k = key_index(t, m);
    assert(t[k].0 == m);
}

pub proof fn lemma_sum_push(t: Seq<(Member, i128)>, e: (Member, i128))
    ensures
        sum_amounts(t.push(e)) == sum_amounts(t) + e.1,
{
    assert(t.push(e).drop_last() =~= t);
}

pub proof fn lemma_sum_update(t: Seq<(Member, i128)>, i: int, e: (Member, i128))
    requires
        0 <= i < t.len(),
    ensures
        sum_amounts(t.update(i, e)) == sum_amounts(t) - t[i].1 + e.1,
    decreases t.len(),
{
    let u = t.update(i, e);
    if i == t.len() - 1 {
        assert(u.drop_last() =~= t.drop_last());
    } else {
        assert(u.drop_last() =~= t.drop_last().update(i, e));
        lemma_sum_update(t.drop_last(), i, e);
    }
}

/// With no negative amount, every amount and the sum of every prefix lie
/// between zero and the whole sum.
pub proof fn lemma_sum_bounds(t: Seq<(Member, i128)>, n: int)
    requires
        forall|i: int| 0 <= i < t.len() ==> t[i].1 >= 0,
        0 <= n <= t.len(),
    ensures
        0 <= sum_amounts(t.subrange(0, n)) <= sum_amounts(t),
        forall|i: int| 0 <= i < t.len() ==> t[i].1 <= sum_amounts(t),
    decreases t.len(),
{
    if t.len() == 0 {
        assert(t.subrange(0, n) =~= t);
    } else {
        let d = t.drop_last();
        if n == t.len() {
            assert(t.subrange(0, n) =~= t);
            lemma_sum_bounds(d, d.len() as int);
            assert(d.subrange(0, d.len() as int) =~= d);
        } else {
            assert(d.subrange(0, n) =~= t.subrange(0, n));
            lemma_sum_bounds(d, n);
        }
        assert forall|i: int| 0 <= i < t.len() implies t[i].1 <= sum_amounts(t) by {
            if i < t.len() - 1 {
                assert(d[i] == t[i]);
            }
        }
    }
}

/// What replacing one member's balance does to the table.
pub proof fn lemma_with_balance(t: Seq<(Member, i128)>, m: Member, v: i128)
    requires
        keys_unique(t),
    ensures
        keys_unique(with_balance(t, m, v)),
        lookup(with_balance(t, m, v), m) == v,
        forall|k: Member| k != m ==> lookup(with_balance(t, m, v), k) == lookup(t, k),
        sum_amounts(with_balance(t, m, v)) == sum_amounts(t) - lookup(t, m) + v,
        with_balance(t, m, v).len() == t.len() + (if has_key(t, m) { 0int } else { 1int }),
        members_of(with_balance(t, m, v)) == (if has_key(t, m) {
            members_of(t)
        } else {
            members_of(t).push(m)
        }),
        (forall|i: int| 0 <= i < t.len() ==> t[i].1 >= 0) && v >= 0 ==> forall|i: int|
            0 <= i < with_balance(t, m, v).len() ==> with_balance(t, m, v)[i].1 >= 0,
{
    let u = with_balance(t, m, v);
    let j = if has_key(t, m) {
        key_index(t, m)
    } else {
        t.len() as int
    };
    if has_key(t, m) {
        lemma_sum_update(t, j, (m, v));
        assert(members_of(u) =~= members_of(t));
    } else {
        lemma_sum_push(t, (m, v));
        assert(members_of(u) =~= members_of(t).push(m));
    }
    assert(u[j] == (m, v));
    assert forall|i: int| 0 <= i < u.len() && i != j implies u[i] == t[i] by {}
    assert(keys_unique(u));
    lemma_lookup_at(u, j, m);
    assert forall|k: Member| k != m implies lookup(u, k) == lookup(t, k) by {
        if has_key(t, k) {
            let i = key_index(t, k);
            lemma_lookup_at(t, i, k);
            lemma_lookup_at(u, i, k);
        } else {
            if has_key(u, k) {
                let i = key_index(u, k);
                assert(t[i].0 == k);
            }
        }
    }
}

} // verus!
