use arena::upgrade::{
    cancel_upgrade, execute_upgrade, pending_upgrade, propose_upgrade, ExecuteTimePolicy, UpgradeErrors, UpgradeEvent,
    UpgradeSlot,
};

#[derive(Clone, Copy, Debug, PartialEq, Eq)]
enum E {
    Pending,
    NoPending,
    Timelock,
    Mismatch,
    Malformed,
}

fn errors(malformed: Option<E>) -> UpgradeErrors<E> {
    UpgradeErrors { no_pending: E::NoPending, timelock_not_expired: E::Timelock, hash_mismatch: E::Mismatch, malformed_state: malformed }
}

#[test]
fn propose_records_hash_and_release_time() {
    let mut s = UpgradeSlot::empty();
    let mut ev = Vec::new();
    assert_eq!(pending_upgrade(&s), None);
    assert_eq!(propose_upgrade(&mut s, &mut ev, 1_000, 500, &[1u8; 32], E::Pending), Ok(()));
    assert_eq!(pending_upgrade(&s), Some(([1u8; 32], 1_500)));
    assert_eq!(ev, vec![UpgradeEvent::Proposed { hash: [1u8; 32], execute_after: 1_500 }]);
    // A second proposal is refused, changes nothing and announces nothing.
    assert_eq!(propose_upgrade(&mut s, &mut ev, 2_000, 500, &[2u8; 32], E::Pending), Err(E::Pending));
    assert_eq!(pending_upgrade(&s), Some(([1u8; 32], 1_500)));
    assert_eq!(ev.len(), 1);
}

#[test]
fn execute_respects_the_time_policy() {
    let mut s = UpgradeSlot::empty();
    let mut ev = Vec::new();
    propose_upgrade(&mut s, &mut ev, 1_000, 500, &[1u8; 32], E::Pending).unwrap();
    ev.clear();
    assert_eq!(execute_upgrade(&mut s, &mut ev, 1_499, &[1u8; 32], errors(None), ExecuteTimePolicy::AtOrAfter), Err(E::Timelock));
    assert_eq!(execute_upgrade(&mut s, &mut ev, 1_500, &[1u8; 32], errors(None), ExecuteTimePolicy::StrictlyAfter), Err(E::Timelock));
    assert_eq!(execute_upgrade(&mut s, &mut ev, 1_500, &[9u8; 32], errors(None), ExecuteTimePolicy::AtOrAfter), Err(E::Mismatch));
    assert_eq!(pending_upgrade(&s), Some(([1u8; 32], 1_500)));
    assert!(ev.is_empty());
    assert_eq!(execute_upgrade(&mut s, &mut ev, 1_500, &[1u8; 32], errors(None), ExecuteTimePolicy::AtOrAfter), Ok([1u8; 32]));
    assert_eq!(pending_upgrade(&s), None);
    assert_eq!(ev, vec![UpgradeEvent::Executed { hash: [1u8; 32] }]);
    assert_eq!(execute_upgrade(&mut s, &mut ev, 9_000, &[1u8; 32], errors(None), ExecuteTimePolicy::AtOrAfter), Err(E::NoPending));
    assert_eq!(ev.len(), 1);
}

#[test]
fn strictly_after_runs_one_second_later() {
    let mut s = UpgradeSlot::empty();
    let mut ev = Vec::new();
    propose_upgrade(&mut s, &mut ev, 10, 5, &[7u8; 32], E::Pending).unwrap();
    assert_eq!(execute_upgrade(&mut s, &mut ev, 16, &[7u8; 32], errors(None), ExecuteTimePolicy::StrictlyAfter), Ok([7u8; 32]));
}

#[test]
fn half_stored_proposal_is_malformed() {
    let mut s = UpgradeSlot { pending_hash: Some([1u8; 32]), execute_after: None };
    let mut ev = Vec::new();
    assert_eq!(execute_upgrade(&mut s, &mut ev, 10, &[1u8; 32], errors(Some(E::Malformed)), ExecuteTimePolicy::AtOrAfter), Err(E::Malformed));
    assert_eq!(execute_upgrade(&mut s, &mut ev, 10, &[1u8; 32], errors(None), ExecuteTimePolicy::AtOrAfter), Err(E::NoPending));
    assert_eq!(pending_upgrade(&s), None);
    assert!(ev.is_empty());
}

#[test]
fn cancel_clears_the_proposal() {
    let mut s = UpgradeSlot::empty();
    let mut ev = Vec::new();
    assert_eq!(cancel_upgrade(&mut s, &mut ev, E::NoPending), Err(E::NoPending));
    assert!(ev.is_empty());
    propose_upgrade(&mut s, &mut ev, 0, 100, &[3u8; 32], E::Pending).unwrap();
    assert_eq!(cancel_upgrade(&mut s, &mut ev, E::NoPending), Ok(()));
    assert_eq!(s, UpgradeSlot::empty());
    assert_eq!(pending_upgrade(&s), None);
    assert_eq!(ev, vec![
        UpgradeEvent::Proposed { hash: [3u8; 32], execute_after: 100 },
        UpgradeEvent::Cancelled,
    ]);
    // After a cancel a new proposal is accepted.
    assert_eq!(propose_upgrade(&mut s, &mut ev, 0, 100, &[4u8; 32], E::Pending), Ok(()));
}
