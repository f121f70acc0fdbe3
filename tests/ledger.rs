use chama_savings::{ChamaSavings, LedgerError, Member};

fn alice() -> Member {
    Member::new(1)
}

fn bob() -> Member {
    Member::new(2)
}

fn ready() -> ChamaSavings {
    let mut l = ChamaSavings::new();
    l.initialize();
    l
}

#[test]
fn test_initialize() {
    let mut l = ChamaSavings::new();
    assert!(!l.is_initialized());
    l.initialize();
    assert!(l.is_initialized());
}

#[test]
fn test_contribute_and_balance() {
    let user = alice();
    let mut l = ready();
    l.contribute(user, user, 1000).unwrap();
    let balance = l.get_balance(user);
    assert_eq!(balance, 1000);
}

#[test]
fn test_multiple_contributions() {
    let user1 = alice();
    let user2 = bob();
    let mut l = ready();
    l.contribute(user1, user1, 500).unwrap();
    l.contribute(user2, user2, 300).unwrap();
    l.contribute(user1, user1, 200).unwrap();
    assert_eq!(l.get_balance(user1), 700);
    assert_eq!(l.get_balance(user2), 300);
    assert_eq!(l.get_total_pool(), 1000);
}

#[test]
fn test_withdraw() {
    let user = alice();
    let mut l = ready();
    l.contribute(user, user, 1000).unwrap();
    let new_balance = l.withdraw(user, user, 300).unwrap();
    assert_eq!(new_balance, 700);
    assert_eq!(l.get_balance(user), 700);
}

#[test]
fn withdraw_without_contribution_is_insufficient() {
    let mut l = ready();
    assert_eq!(l.withdraw(alice(), alice(), 1), Err(LedgerError::InsufficientBalance));
    assert_eq!(l.get_balance(alice()), 0);
    assert_eq!(l.get_total_pool(), 0);
}

#[test]
fn negative_contribution_is_invalid() {
    let mut l = ready();
    assert_eq!(l.contribute(alice(), alice(), -50), Err(LedgerError::InvalidAmount));
    assert!(l.get_contribution_history(alice()).is_empty());
    assert!(l.get_all_contributions().is_empty());
}

#[test]
fn zero_amounts_are_invalid() {
    let mut l = ready();
    l.contribute(alice(), alice(), 10).unwrap();
    assert_eq!(l.contribute(alice(), alice(), 0), Err(LedgerError::InvalidAmount));
    assert_eq!(l.withdraw(alice(), alice(), 0), Err(LedgerError::InvalidAmount));
    assert_eq!(l.withdraw(alice(), alice(), -5), Err(LedgerError::InvalidAmount));
    assert_eq!(l.get_balance(alice()), 10);
}

#[test]
fn reinitialize_wipes_state() {
    let mut l = ready();
    l.contribute(alice(), alice(), 100).unwrap();
    l.initialize();
    assert_eq!(l.get_balance(alice()), 0);
    assert!(l.get_all_contributions().is_empty());
    assert_eq!(l.get_stats(), (0, 0, 0));
}

#[test]
fn proxy_calls_are_unauthorized() {
    let mut l = ready();
    l.contribute(alice(), alice(), 100).unwrap();
    assert_eq!(l.contribute(bob(), alice(), 50), Err(LedgerError::Unauthorized));
    assert_eq!(l.withdraw(bob(), alice(), 50), Err(LedgerError::Unauthorized));
    assert_eq!(l.get_balance(alice()), 100);
    assert_eq!(l.get_all_contributions(), vec![(alice(), 100)]);
}

#[test]
fn invalid_amount_is_reported_before_authorization() {
    let mut l = ready();
    assert_eq!(l.contribute(bob(), alice(), 0), Err(LedgerError::InvalidAmount));
}

#[test]
fn overdraw_is_rejected_and_changes_nothing() {
    let mut l = ready();
    l.contribute(alice(), alice(), 100).unwrap();
    l.contribute(bob(), bob(), 40).unwrap();
    let before = l.get_all_contributions();
    assert_eq!(l.withdraw(alice(), alice(), 101), Err(LedgerError::InsufficientBalance));
    assert_eq!(l.get_balance(alice()), 100);
    assert_eq!(l.get_total_pool(), 140);
    assert_eq!(l.get_all_contributions(), before);
}

#[test]
fn withdraw_whole_balance_leaves_zero() {
    let mut l = ready();
    l.contribute(alice(), alice(), 250).unwrap();
    assert_eq!(l.withdraw(alice(), alice(), 250), Ok(0));
    assert_eq!(l.get_balance(alice()), 0);
    assert_eq!(l.get_stats(), (0, 1, 1));
}

#[test]
fn pool_overflow_is_rejected() {
    let mut l = ready();
    l.contribute(alice(), alice(), i128::MAX - 1).unwrap();
    l.contribute(bob(), bob(), 1).unwrap();
    assert_eq!(l.contribute(bob(), bob(), 1), Err(LedgerError::Overflow));
    assert_eq!(l.get_total_pool(), i128::MAX);
    assert_eq!(l.get_contribution_history(bob()), vec![1]);
}

#[test]
fn balances_accumulate() {
    let mut l = ready();
    let amounts = [3i128, 7, 11, 13];
    for a in amounts {
        l.contribute(alice(), alice(), a).unwrap();
    }
    assert_eq!(l.get_balance(alice()), 34);
}

#[test]
fn balances_stay_nonnegative() {
    let mut l = ready();
    l.contribute(alice(), alice(), 5).unwrap();
    l.withdraw(alice(), alice(), 5).unwrap();
    assert!(l.withdraw(alice(), alice(), 1).is_err());
    assert!(l.get_balance(alice()) >= 0);
    assert!(l.get_balance(bob()) >= 0);
}

#[test]
fn pool_is_sum_of_balances() {
    let mut l = ready();
    l.contribute(alice(), alice(), 500).unwrap();
    l.contribute(bob(), bob(), 300).unwrap();
    l.withdraw(alice(), alice(), 120).unwrap();
    let carol = Member::new(3);
    l.contribute(carol, carol, 9).unwrap();
    let sum = l.get_balance(alice()) + l.get_balance(bob()) + l.get_balance(carol);
    assert_eq!(l.get_total_pool(), sum);
    assert_eq!(l.get_total_pool(), 689);
}

#[test]
fn history_lists_contributions_in_order() {
    let mut l = ready();
    l.contribute(alice(), alice(), 500).unwrap();
    l.contribute(bob(), bob(), 300).unwrap();
    l.contribute(alice(), alice(), 200).unwrap();
    l.withdraw(alice(), alice(), 100).unwrap();
    assert_eq!(l.get_contribution_history(alice()), vec![500, 200]);
    assert_eq!(l.get_contribution_history(bob()), vec![300]);
    assert!(l.get_contribution_history(Member::new(9)).is_empty());
    assert_eq!(
        l.get_all_contributions(),
        vec![(alice(), 500), (bob(), 300), (alice(), 200)]
    );
}

#[test]
fn stats_report_pool_entries_and_members() {
    let mut l = ready();
    l.contribute(alice(), alice(), 500).unwrap();
    l.contribute(bob(), bob(), 300).unwrap();
    l.contribute(alice(), alice(), 200).unwrap();
    assert_eq!(l.get_stats(), (1000, 3, 2));
}

#[test]
fn uninitialized_ledger_still_operates() {
    let mut l = ChamaSavings::new();
    l.contribute(alice(), alice(), 70).unwrap();
    assert_eq!(l.get_balance(alice()), 70);
    assert!(!l.is_initialized());
}

#[test]
fn records_round_trip() {
    let mut l = ready();
    l.contribute(alice(), alice(), 500).unwrap();
    l.contribute(bob(), bob(), 300).unwrap();
    l.withdraw(bob(), bob(), 100).unwrap();
    let back = ChamaSavings::from_records(
        l.is_initialized(),
        l.get_all_contributions(),
        l.get_balance_table(),
    )
    .unwrap();
    assert!(back.is_initialized());
    assert_eq!(back.get_balance(alice()), 500);
    assert_eq!(back.get_balance(bob()), 200);
    assert_eq!(back.get_total_pool(), 700);
    assert_eq!(back.get_balance_table(), vec![(alice(), 500), (bob(), 200)]);
}

#[test]
fn malformed_records_are_refused() {
    let log = vec![(alice(), 5), (bob(), 5)];
    assert!(ChamaSavings::from_records(true, log.clone(), vec![(alice(), 5), (alice(), 0)]).is_none());
    assert!(ChamaSavings::from_records(true, log.clone(), vec![(alice(), -1)]).is_none());
    assert!(ChamaSavings::from_records(true, vec![(alice(), 0)], vec![]).is_none());
    assert!(ChamaSavings::from_records(true, vec![(alice(), 1)], vec![(alice(), 1), (bob(), 0)]).is_none());
    assert!(ChamaSavings::from_records(true, log.clone(), vec![(alice(), i128::MAX), (bob(), 1)]).is_none());
    assert!(ChamaSavings::from_records(false, log, vec![(alice(), 5), (bob(), 5)]).is_some());
}
