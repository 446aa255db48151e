use medical_consent::correlation::OrderingUnit;
use medical_consent::ledger::{Ledger, LedgerError, ListKind};

#[test]
fn request_then_approve_keeps_identifier() {
    let mut l = Ledger::new(4);
    assert_eq!(l.request(7, 1, 99), Ok(()));
    assert_eq!(l.accounts(ListKind::OwnerPending, 1), vec![7]);
    assert_eq!(l.accounts(ListKind::RequesterPending, 7), vec![1]);
    assert_eq!(l.approve(1, 7), Ok(99));
    assert!(l.is_approved(1, 7));
    assert_eq!(l.accounts(ListKind::OwnerPending, 1), Vec::<u64>::new());
    assert_eq!(l.accounts(ListKind::OwnerApproved, 1), vec![7]);
    assert_eq!(l.accounts(ListKind::RequesterApproved, 7), vec![1]);
}

#[test]
fn approve_without_request_fails() {
    let mut l = Ledger::new(4);
    assert_eq!(l.request(8, 1, 5), Ok(()));
    assert_eq!(l.approve(1, 7), Err(LedgerError::NoRequest));
    assert_eq!(l.accounts(ListKind::OwnerPending, 1), vec![8]);
    assert_eq!(l.accounts(ListKind::OwnerApproved, 1), Vec::<u64>::new());
    assert_eq!(l.approve(2, 8), Err(LedgerError::NoRequest));
}

#[test]
fn second_request_is_rejected() {
    let mut l = Ledger::new(4);
    assert_eq!(l.request(7, 1, 10), Ok(()));
    assert_eq!(l.request(7, 1, 11), Err(LedgerError::AlreadyRequested));
    assert_eq!(l.accounts(ListKind::OwnerPending, 1), vec![7]);
    assert_eq!(l.approve(1, 7), Ok(10));
    assert_eq!(l.request(7, 1, 12), Err(LedgerError::AlreadyApproved));
    assert_eq!(l.list_count(ListKind::OwnerApproved, 1), 1);
    assert_eq!(l.list_count(ListKind::OwnerPending, 1), 0);
}

#[test]
fn owner_pending_list_bound() {
    let mut l = Ledger::new(2);
    assert_eq!(l.request(10, 1, 1), Ok(()));
    assert_eq!(l.request(11, 1, 2), Ok(()));
    assert_eq!(l.request(12, 1, 3), Err(LedgerError::MaxListLengthReached));
    assert_eq!(l.list_count(ListKind::OwnerPending, 1), 2);
    assert_eq!(l.accounts(ListKind::OwnerPending, 1), vec![10, 11]);
    assert_eq!(l.accounts(ListKind::RequesterPending, 12), Vec::<u64>::new());
}

#[test]
fn requester_pending_list_bound() {
    let mut l = Ledger::new(2);
    assert_eq!(l.request(10, 1, 1), Ok(()));
    assert_eq!(l.request(10, 2, 2), Ok(()));
    assert_eq!(l.request(10, 3, 3), Err(LedgerError::MaxListLengthReached));
    assert_eq!(l.list_count(ListKind::RequesterPending, 10), 2);
}

#[test]
fn approved_list_bound() {
    let mut l = Ledger::new(1);
    assert_eq!(l.request(10, 1, 1), Ok(()));
    assert_eq!(l.approve(1, 10), Ok(1));
    assert_eq!(l.request(11, 1, 2), Ok(()));
    assert_eq!(l.approve(1, 11), Err(LedgerError::MaxListLengthReached));
    assert_eq!(l.list_count(ListKind::OwnerApproved, 1), 1);
    assert_eq!(l.accounts(ListKind::OwnerPending, 1), vec![11]);
}

#[test]
fn zero_bound_rejects_every_request() {
    let mut l = Ledger::new(0);
    assert_eq!(l.max_list_length(), 0);
    assert_eq!(l.request(10, 1, 1), Err(LedgerError::MaxListLengthReached));
    assert_eq!(l.list_count(ListKind::OwnerPending, 1), 0);
}

#[test]
fn revoke_clears_pending_and_approved() {
    let mut l = Ledger::new(4);
    assert_eq!(l.revoke(1, 7), Err(LedgerError::NoRequest));
    assert_eq!(l.request(7, 1, 1), Ok(()));
    assert_eq!(l.request(8, 1, 2), Ok(()));
    assert_eq!(l.revoke(1, 7), Ok(()));
    assert_eq!(l.accounts(ListKind::OwnerPending, 1), vec![8]);
    assert_eq!(l.approve(1, 8), Ok(2));
    assert_eq!(l.revoke(1, 8), Ok(()));
    assert!(!l.is_approved(1, 8));
    assert_eq!(l.accounts(ListKind::OwnerApproved, 1), Vec::<u64>::new());
    assert_eq!(l.revoke(1, 8), Err(LedgerError::NoRequest));
    assert_eq!(l.request(8, 1, 3), Ok(()));
}

#[test]
fn pairs_are_kept_apart() {
    let mut l = Ledger::new(4);
    assert_eq!(l.request(7, 1, 1), Ok(()));
    assert_eq!(l.request(1, 7, 2), Ok(()));
    assert_eq!(l.approve(7, 1), Ok(2));
    assert!(l.is_approved(7, 1));
    assert!(!l.is_approved(1, 7));
    assert_eq!(l.accounts(ListKind::OwnerPending, 1), vec![7]);
}

#[test]
fn identifiers_differ_by_position() {
    let unit = OrderingUnit { height: 5, seed: 9 };
    let a = unit.correlation_id(0);
    let b = unit.correlation_id(1);
    assert_ne!(a, b);
    assert_eq!(a, (5u128 << 64) + (9u128 << 32));
    assert_eq!(b, (5u128 << 64) + (9u128 << 32) + 1);
}

#[test]
fn identifiers_differ_by_height() {
    let u1 = OrderingUnit { height: 1, seed: 0xffff_ffff };
    let u2 = OrderingUnit { height: 2, seed: 0 };
    assert_ne!(u1.correlation_id(0xffff_ffff), u2.correlation_id(0));
    let top = OrderingUnit { height: u64::MAX, seed: u32::MAX };
    assert_eq!(top.correlation_id(u32::MAX), u128::MAX);
}

#[test]
fn approvals_append_to_owner_list() {
    let mut l = Ledger::new(4);
    assert_eq!(l.request(2, 1, 20), Ok(()));
    assert_eq!(l.request(3, 1, 30), Ok(()));
    assert_eq!(l.approve(1, 3), Ok(30));
    assert_eq!(l.accounts(ListKind::OwnerApproved, 1), vec![3]);
    assert_eq!(l.accounts(ListKind::OwnerPending, 1), vec![2]);
    assert_eq!(l.approve(1, 2), Ok(20));
    assert_eq!(l.accounts(ListKind::OwnerApproved, 1), vec![3, 2]);
    assert_eq!(l.accounts(ListKind::OwnerPending, 1), Vec::<u64>::new());
}

#[test]
fn approvals_append_to_requester_list() {
    let mut l = Ledger::new(4);
    assert_eq!(l.request(2, 1, 10), Ok(()));
    assert_eq!(l.request(2, 3, 30), Ok(()));
    assert_eq!(l.approve(3, 2), Ok(30));
    assert_eq!(l.approve(1, 2), Ok(10));
    assert_eq!(l.accounts(ListKind::RequesterApproved, 2), vec![3, 1]);
    assert_eq!(l.accounts(ListKind::RequesterPending, 2), Vec::<u64>::new());
}

#[test]
fn approval_keeps_other_pending_order() {
    let mut l = Ledger::new(4);
    assert_eq!(l.request(2, 1, 1), Ok(()));
    assert_eq!(l.request(3, 1, 2), Ok(()));
    assert_eq!(l.request(4, 1, 3), Ok(()));
    assert_eq!(l.approve(1, 3), Ok(2));
    assert_eq!(l.accounts(ListKind::OwnerPending, 1), vec![2, 4]);
    assert_eq!(l.revoke(1, 2), Ok(()));
    assert_eq!(l.accounts(ListKind::OwnerPending, 1), vec![4]);
    assert_eq!(l.accounts(ListKind::OwnerApproved, 1), vec![3]);
}
