//! The timelocked upgrade flow shared by the contracts: a proposal records a
//! code hash and the earliest time it may run; execution consumes it.
use vstd::prelude::*;
use crate::addr::bytes32_eq;

verus! {

/// Whether an upgrade may run at its release time or only after it.
#[derive(Clone, Copy, Debug, PartialEq, Eq, Structural)]
pub enum ExecuteTimePolicy {
    AtOrAfter,
    StrictlyAfter,
}

/// The errors a contract reports for the upgrade flow.
#[derive(Clone, Copy, Debug, PartialEq, Eq)]
pub struct UpgradeErrors<E> {
    pub no_pending: E,
    pub timelock_not_expired: E,
    pub hash_mismatch: E,
    pub malformed_state: Option<E>,
}

/// What the upgrade flow announces.
#[derive(Clone, Copy, Debug, PartialEq, Eq)]
pub enum UpgradeEvent {
    Proposed { hash: [u8; 32], execute_after: u64 },
    Executed { hash: [u8; 32] },
    Cancelled,
}

/// The two stored entries of a pending upgrade.
#[derive(Clone, Copy, Debug, PartialEq, Eq)]
pub struct UpgradeSlot {
    pub pending_hash: Option<[u8; 32]>,
    pub execute_after: Option<u64>,
}

impl UpgradeSlot {
    pub fn empty() -> (s: UpgradeSlot)
        ensures
            s.pending_hash is None,
            s.execute_after is None,
    {
        UpgradeSlot { pending_hash: None, execute_after: None }
    }

    /// Both entries or neither are stored.
    pub open spec fn consistent(self) -> bool {
        self.pending_hash is Some <==> self.execute_after is Some
    }
}

/// Whether the timelock has run out at `now`.
pub open spec fn timelock_open(policy: ExecuteTimePolicy, now: u64, execute_after: u64) -> bool {
    match policy {
        ExecuteTimePolicy::AtOrAfter => now >= execute_after,
        ExecuteTimePolicy::StrictlyAfter => now > execute_after,
    }
}

/// The error reported when only one of the two entries is stored.
pub open spec fn missing_state_error<E>(errors: UpgradeErrors<E>) -> E {
    match errors.malformed_state {
        Some(e) => e,
        None => errors.no_pending,
    }
}

/// The slot after a successful proposal.
pub open spec fn proposed(now: u64, timelock_period: u64, new_wasm_hash: [u8; 32]) -> UpgradeSlot {
    UpgradeSlot { pending_hash: Some(new_wasm_hash), execute_after: Some((now + timelock_period) as u64) }
}

/// The slot with nothing pending.
pub open spec fn cleared() -> UpgradeSlot {
    UpgradeSlot { pending_hash: None, execute_after: None }
}

/// What executing the pending upgrade returns.
pub open spec fn execute_result<E>(
    slot: UpgradeSlot,
    now: u64,
    expected_hash: [u8; 32],
    errors: UpgradeErrors<E>,
    time_policy: ExecuteTimePolicy,
) -> Result<[u8; 32], E> {
    match (slot.pending_hash, slot.execute_after) {
        (None, None) => Err(errors.no_pending),
        (Some(h), Some(after)) => if !timelock_open(time_policy, now, after) {
            Err(errors.timelock_not_expired)
        } else if h != expected_hash {
            Err(errors.hash_mismatch)
        } else {
            Ok(h)
        },
        _ => Err(missing_state_error(errors)),
    }
}

/// The pending hash and its release time, when both are stored.
pub open spec fn pending_of(slot: UpgradeSlot) -> Option<([u8; 32], u64)> {
    match (slot.pending_hash, slot.execute_after) {
        (Some(h), Some(a)) => Some((h, a)),
        _ => None,
    }
}

/// Records `new_wasm_hash` as pending, to run no earlier than `now + timelock_period`,
/// and announces the proposal. Refused while another proposal is pending.
pub fn propose_upgrade<E: Copy>(
    slot: &mut UpgradeSlot,
    events: &mut Vec<UpgradeEvent>,
    now: u64,
    timelock_period: u64,
    new_wasm_hash: &[u8; 32],
    upgrade_already_pending: E,
) -> (r: Result<(), E>)
    requires
        old(slot).pending_hash is None ==> now + timelock_period <= u64::MAX,
    ensures
        old(slot).pending_hash is Some ==> r == Err::<(), E>(upgrade_already_pending) && *final(slot) == *old(slot)
            && final(events)@ == old(events)@,
        old(slot).pending_hash is None ==> r is Ok && *final(slot) == proposed(now, timelock_period, *new_wasm_hash)
            && final(events)@ == old(events)@.push(
            UpgradeEvent::Proposed { hash: *new_wasm_hash, execute_after: (now + timelock_period) as u64 },
        ),
{
    if slot.pending_hash.is_some() {
        return Err(upgrade_already_pending);
    }
    let execute_after = now + timelock_period;
    slot.pending_hash = Some(*new_wasm_hash);
    slot.execute_after = Some(execute_after);
    events.push(UpgradeEvent::Proposed { hash: *new_wasm_hash, execute_after });
    Ok(())
}

/// Runs the pending upgrade if its timelock has run out and its hash is `expected_hash`;
/// returns that hash, clears the proposal and announces the execution.
pub fn execute_upgrade<E: Copy>(
    slot: &mut UpgradeSlot,
    events: &mut Vec<UpgradeEvent>,
    now: u64,
    expected_hash: &[u8; 32],
    errors: UpgradeErrors<E>,
    time_policy: ExecuteTimePolicy,
) -> (r: Result<[u8; 32], E>)
    ensures
        r == execute_result(*old(slot), now, *expected_hash, errors, time_policy),
        r matches Ok(h) ==> *final(slot) == cleared() && final(events)@ == old(events)@.push(
            UpgradeEvent::Executed { hash: h },
        ),
        r is Err ==> *final(slot) == *old(slot) && final(events)@ == old(events)@,
{
    let missing = match errors.malformed_state {
        Some(e) => e,
        None => errors.no_pending,
    };
    match (slot.pending_hash, slot.execute_after) {
        (None, None) => Err(errors.no_pending),
        (Some(_), None) | (None, Some(_)) => Err(missing),
        (Some(stored), Some(after)) => {
            let not_expired = match time_policy {
                ExecuteTimePolicy::AtOrAfter => now < after,
                ExecuteTimePolicy::StrictlyAfter => now <= after,
            };
            if not_expired {
                return Err(errors.timelock_not_expired);
            }
            if !bytes32_eq(&stored, expected_hash) {
                return Err(errors.hash_mismatch);
            }
            slot.pending_hash = None;
            slot.execute_after = None;
            events.push(UpgradeEvent::Executed { hash: stored });
            Ok(stored)
        },
    }
}

/// Withdraws the pending proposal and announces the withdrawal.
pub fn cancel_upgrade<E: Copy>(slot: &mut UpgradeSlot, events: &mut Vec<UpgradeEvent>, no_pending: E) -> (r: Result<(), E>)
    ensures
        old(slot).pending_hash is None ==> r == Err::<(), E>(no_pending) && *final(slot) == *old(slot)
            && final(events)@ == old(events)@,
        old(slot).pending_hash is Some ==> r is Ok && *final(slot) == cleared() && final(events)@ == old(events)@.push(
            UpgradeEvent::Cancelled,
        ),
{
    if slot.pending_hash.is_none() {
        return Err(no_pending);
    }
    slot.pending_hash = None;
    slot.execute_after = None;
    events.push(UpgradeEvent::Cancelled);
    Ok(())
}

/// The pending hash and its release time, when both are stored.
pub fn pending_upgrade(slot: &UpgradeSlot) -> (r: Option<([u8; 32], u64)>)
    ensures
        r == pending_of(*slot),
{
    match (slot.pending_hash, slot.execute_after) {
        (Some(h), Some(a)) => Some((h, a)),
        _ => None,
    }
}

} // verus!
