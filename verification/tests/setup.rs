//! Configuration, administration, calling an arena off, metadata, upgrades.
use arena::addr::Addr;
use arena::events::{Effect, Event};
use arena::model::{ArenaContract, ArenaMetadata, Ledger};
use arena::types::{ArenaConfig, ArenaError, ArenaExpired, ArenaState, ArenaStateChanged, ArenaStateView, FullStateView};

const T0: u64 = 1_700_000_000;
const STAKE: i128 = 10_000_000;

fn addr(n: u8) -> Addr {
    Addr::Account([n; 32])
}

fn at(sequence: u32) -> Ledger {
    Ledger { timestamp: T0, sequence }
}

fn configured() -> ArenaContract {
    let mut a = ArenaContract::new();
    a.initialize(addr(1));
    a.init(10, STAKE, T0 + 7_200, at(1_000)).unwrap();
    a
}

#[test]
fn is_terminal_state_of_each_state() {
    assert!(!ArenaState::Pending.is_terminal_state());
    assert!(!ArenaState::Active.is_terminal_state());
    assert!(ArenaState::Completed.is_terminal_state());
    assert!(ArenaState::Cancelled.is_terminal_state());
}

#[test]
fn init_stores_the_configuration() {
    let a = configured();
    assert_eq!(a.get_config(), Ok(ArenaConfig {
        round_speed_in_ledgers: 10,
        round_duration_seconds: 0,
        required_stake_amount: STAKE,
        max_rounds: 10,
        join_deadline: T0 + 7_200,
    }));
    let r = a.get_round().unwrap();
    assert_eq!(r.round_number, 0);
    assert!(!r.active && !r.finished);
    assert_eq!(a.get_join_deadline(), T0 + 7_200);
    assert_eq!(a.state(), ArenaState::Pending);
    assert_eq!(a.admin(), addr(1));
}

#[test]
fn init_rejects_bad_settings() {
    let mut a = ArenaContract::new();
    let l = at(1_000);
    assert_eq!(a.init(10, STAKE, T0 + 3_599, l), Err(ArenaError::DeadlineTooSoon));
    assert_eq!(a.init(10, STAKE, T0 + 604_801, l), Err(ArenaError::DeadlineTooFar));
    assert_eq!(a.init(0, STAKE, T0 + 3_600, l), Err(ArenaError::InvalidRoundSpeed));
    assert_eq!(a.init(17_281, STAKE, T0 + 3_600, l), Err(ArenaError::InvalidRoundSpeed));
    assert_eq!(a.init(10, STAKE - 1, T0 + 3_600, l), Err(ArenaError::InvalidAmount));
    assert_eq!(a.get_config(), Err(ArenaError::NotInitialized));
    assert!(a.init(17_280, STAKE, T0 + 604_800, l).is_ok());
    assert_eq!(a.init(10, STAKE, T0 + 3_600, l), Err(ArenaError::AlreadyInitialized));
}

#[test]
fn join_before_configuration_is_refused() {
    let mut a = ArenaContract::new();
    assert_eq!(a.join(addr(10), STAKE), Err(ArenaError::NotInitialized));
    let mut b = configured();
    assert_eq!(b.join(addr(10), STAKE), Err(ArenaError::TokenNotSet));
}

#[test]
fn capacity_bounds_and_a_full_arena() {
    let mut a = configured();
    assert_eq!(a.set_capacity(1), Err(ArenaError::InvalidCapacity));
    assert_eq!(a.set_capacity(10_001), Err(ArenaError::InvalidCapacity));
    assert_eq!(a.set_capacity(2), Ok(()));
    a.set_token(addr(200)).unwrap();
    a.join(addr(10), STAKE).unwrap();
    a.join(addr(11), STAKE).unwrap();
    assert_eq!(a.join(addr(12), STAKE), Err(ArenaError::ArenaFull));
    assert_eq!(a.get_arena_state_view(7), Ok(ArenaStateView {
        survivors_count: 2,
        max_capacity: 2,
        round_number: 0,
        current_stake: 0,
        potential_payout: 0,
    }));
}

#[test]
fn token_is_locked_once_players_joined() {
    let mut a = configured();
    a.set_token(addr(200)).unwrap();
    a.set_token(addr(201)).unwrap();
    a.join(addr(10), STAKE).unwrap();
    assert_eq!(a.set_token(addr(202)), Err(ArenaError::TokenConfigurationLocked));
    assert_eq!(a.core.token, Some(addr(201)));
}

#[test]
fn max_rounds_bounds() {
    let mut a = ArenaContract::new();
    assert_eq!(a.set_max_rounds(5), Err(ArenaError::NotInitialized));
    let mut b = configured();
    assert_eq!(b.set_max_rounds(0), Err(ArenaError::InvalidMaxRounds));
    assert_eq!(b.set_max_rounds(101), Err(ArenaError::InvalidMaxRounds));
    assert_eq!(b.set_max_rounds(100), Ok(()));
    assert_eq!(b.get_config().unwrap().max_rounds, 100);
}

#[test]
fn pause_blocks_and_unpause_resumes() {
    let mut a = configured();
    a.set_token(addr(200)).unwrap();
    assert_eq!(a.pause(), vec![Effect::Emit(Event::Paused)]);
    assert!(a.is_paused());
    assert_eq!(a.require_not_paused(), Err(ArenaError::Paused));
    assert_eq!(a.join(addr(10), STAKE), Err(ArenaError::Paused));
    assert_eq!(a.cancel_arena(), Err(ArenaError::Paused));
    assert_eq!(a.start_round(at(1_010)).map(|r| r.0), Err(ArenaError::Paused));
    assert_eq!(a.unpause(), vec![Effect::Emit(Event::Unpaused)]);
    assert_eq!(a.require_not_paused(), Ok(()));
    assert!(a.join(addr(10), STAKE).is_ok());
}

#[test]
fn leave_refunds_and_restores_the_roster() {
    let mut a = configured();
    a.set_token(addr(200)).unwrap();
    a.join(addr(10), STAKE).unwrap();
    let before = a.players.clone();
    a.join(addr(11), STAKE).unwrap();
    let (refund, effects) = a.leave(addr(11)).unwrap();
    assert_eq!(refund, STAKE);
    assert_eq!(effects, vec![
        Effect::Pay { to: addr(11), amount: STAKE },
        Effect::Emit(Event::Left { player: addr(11), refund: STAKE }),
    ]);
    assert_eq!(a.players, before);
    assert_eq!(a.core.survivor_count, 1);
    assert_eq!(a.core.prize_pool, -STAKE);
    assert_eq!(a.leave(addr(11)).map(|r| r.0), Err(ArenaError::NotASurvivor));
}

#[test]
fn leave_after_the_first_round_is_refused() {
    let mut a = configured();
    a.set_token(addr(200)).unwrap();
    a.join(addr(10), STAKE).unwrap();
    a.join(addr(11), STAKE).unwrap();
    a.start_round(at(1_010)).unwrap();
    assert_eq!(a.start_round(at(1_011)).map(|r| r.0), Err(ArenaError::RoundAlreadyActive));
    a.pause();
    assert_eq!(a.leave(addr(10)).map(|r| r.0), Err(ArenaError::Paused));
}

#[test]
fn start_round_needs_players_and_room_for_deadlines() {
    let mut a = configured();
    a.set_token(addr(200)).unwrap();
    a.join(addr(10), STAKE).unwrap();
    assert_eq!(a.start_round(at(1_010)).map(|r| r.0), Err(ArenaError::NotEnoughPlayers));
    a.join(addr(11), STAKE).unwrap();
    assert_eq!(a.start_round(at(u32::MAX - 5)).map(|r| r.0), Err(ArenaError::RoundDeadlineOverflow));
    assert_eq!(a.start_round(at(u32::MAX - 15)).map(|r| r.0), Err(ArenaError::RoundDeadlineOverflow));
    assert!(a.start_round(at(u32::MAX - 20)).is_ok());
    assert_eq!(ArenaContract::new().start_round(at(1)).map(|r| r.0), Err(ArenaError::NotInitialized));
}

#[test]
fn timeout_and_resolve_without_a_round() {
    let mut a = configured();
    assert_eq!(a.timeout_round(at(1_100)).map(|r| r.0), Err(ArenaError::NoActiveRound));
    let mut b = ArenaContract::new();
    assert_eq!(b.timeout_round(at(1_100)).map(|r| r.0), Err(ArenaError::NotInitialized));
    assert_eq!(b.resolve_round(at(1_100), true).map(|r| r.0), Err(ArenaError::NotInitialized));
}

#[test]
fn set_winner_checks() {
    let mut a = configured();
    a.set_token(addr(200)).unwrap();
    a.join(addr(10), STAKE).unwrap();
    a.join(addr(11), STAKE).unwrap();
    a.start_round(at(1_010)).unwrap();
    assert_eq!(a.set_winner(addr(99), 1, 1), Err(ArenaError::NotASurvivor));
    assert_eq!(a.set_winner(addr(10), -1, 1), Err(ArenaError::InvalidAmount));
    assert_eq!(a.set_winner(addr(10), i128::MAX, 1), Err(ArenaError::InvalidAmount));
    assert_eq!(a.set_winner(addr(10), 5, 7), Ok(vec![Effect::Emit(Event::WinnerSet { player: addr(10), stake: 5, yield_comp: 7 })]));
    assert_eq!(a.core.prize_pool, 12);
    assert_eq!(a.set_winner(addr(11), 5, 7), Err(ArenaError::WinnerAlreadySet));
}

#[test]
fn set_winner_pool_overflow_is_refused() {
    let mut a = configured();
    a.set_token(addr(200)).unwrap();
    a.join(addr(10), STAKE).unwrap();
    a.join(addr(11), STAKE).unwrap();
    a.start_round(at(1_010)).unwrap();
    a.core.prize_pool = i128::MAX - 1;
    assert_eq!(a.set_winner(addr(10), 1, 1), Err(ArenaError::InvalidAmount));
    assert!(a.set_winner(addr(10), 1, 0).is_ok());
}

#[test]
fn cancel_refunds_everyone_once() {
    let mut a = configured();
    a.set_token(addr(200)).unwrap();
    a.join(addr(10), STAKE).unwrap();
    a.join(addr(11), STAKE).unwrap();
    let effects = a.cancel_arena().unwrap();
    assert_eq!(effects, vec![
        Effect::Pay { to: addr(10), amount: STAKE },
        Effect::Pay { to: addr(11), amount: STAKE },
        Effect::Emit(Event::StateChanged(ArenaStateChanged { old_state: ArenaState::Pending, new_state: ArenaState::Cancelled })),
        Effect::Emit(Event::Cancelled),
    ]);
    assert!(a.is_cancelled());
    assert_eq!(a.state(), ArenaState::Cancelled);
    assert!(a.players.iter().all(|p| p.refunded));
    assert_eq!(a.cancel_arena(), Err(ArenaError::AlreadyCancelled));
}

#[test]
fn cancel_after_the_end_is_refused() {
    let mut a = configured();
    a.set_token(addr(200)).unwrap();
    a.join(addr(10), STAKE).unwrap();
    a.resolve_round(at(1_001), true).unwrap();
    assert_eq!(a.cancel_arena(), Err(ArenaError::GameAlreadyFinished));
    let mut b = configured();
    b.join(addr(10), STAKE).unwrap_err();
}

#[test]
fn cancel_without_players_needs_no_token() {
    let mut a = ArenaContract::new();
    a.initialize(addr(1));
    let effects = a.cancel_arena().unwrap();
    assert_eq!(effects.len(), 2);
    assert_eq!(a.state(), ArenaState::Cancelled);
}

#[test]
fn expiry_after_the_join_deadline() {
    let mut a = configured();
    a.set_token(addr(200)).unwrap();
    a.join(addr(10), STAKE).unwrap();
    a.join(addr(11), STAKE).unwrap();
    assert_eq!(a.expire_arena(Ledger { timestamp: T0 + 7_200, sequence: 2_000 }), Err(ArenaError::DeadlineNotReached));
    let effects = a.expire_arena(Ledger { timestamp: T0 + 7_201, sequence: 2_000 }).unwrap();
    assert_eq!(effects, vec![
        Effect::Pay { to: addr(10), amount: STAKE },
        Effect::Pay { to: addr(11), amount: STAKE },
        Effect::Emit(Event::StateChanged(ArenaStateChanged { old_state: ArenaState::Pending, new_state: ArenaState::Cancelled })),
        Effect::Emit(Event::Expired(ArenaExpired { arena_id: 0, refunded_players: 2 })),
    ]);
    assert!(a.is_cancelled());
    assert_eq!(a.core.prize_pool, 0);
    assert_eq!(ArenaContract::new().expire_arena(at(1)), Err(ArenaError::NotInitialized));
}

#[test]
fn factory_is_notified_of_state_changes() {
    let mut a = configured();
    a.init_factory(addr(50), addr(51));
    a.set_metadata(77, b"Arena".to_vec(), None, addr(2), at(1_000)).unwrap();
    a.set_token(addr(200)).unwrap();
    a.join(addr(10), STAKE).unwrap();
    a.join(addr(11), STAKE).unwrap();
    let (_, effects) = a.start_round(at(1_010)).unwrap();
    assert_eq!(effects[0], Effect::Emit(Event::StateChanged(ArenaStateChanged {
        old_state: ArenaState::Pending,
        new_state: ArenaState::Active,
    })));
    assert_eq!(effects[1], Effect::NotifyFactory { factory: addr(50), arena_id: 77, state: ArenaState::Active });
}

#[test]
fn metadata_is_validated_and_replaced() {
    let mut a = configured();
    assert_eq!(a.set_metadata(1, vec![], None, addr(2), at(1)), Err(ArenaError::NameEmpty));
    assert_eq!(a.set_metadata(1, vec![b'a'; 65], None, addr(2), at(1)), Err(ArenaError::NameTooLong));
    assert_eq!(a.set_metadata(1, vec![b'a'; 64], Some(vec![b'd'; 257]), addr(2), at(1)), Err(ArenaError::DescriptionTooLong));
    assert_eq!(a.get_metadata(1), None);
    a.set_metadata(1, b"Test".to_vec(), Some(b"Desc".to_vec()), addr(2), at(1)).unwrap();
    assert_eq!(a.get_metadata(1), Some(ArenaMetadata {
        arena_id: 1,
        name: b"Test".to_vec(),
        description: Some(b"Desc".to_vec()),
        host: addr(2),
        created_at: T0,
    }));
    a.set_metadata(1, b"Other".to_vec(), Some(vec![b'd'; 256]), addr(3), Ledger { timestamp: T0 + 5, sequence: 9 }).unwrap();
    assert_eq!(a.metadata.len(), 1);
    assert_eq!(a.get_metadata(1).unwrap().name, b"Other".to_vec());
    assert_eq!(a.get_metadata(1).unwrap().created_at, T0 + 5);
    assert_eq!(a.core.arena_id, Some(1));
}

#[test]
fn upgrade_waits_strictly_past_the_timelock() {
    let mut a = configured();
    assert_eq!(a.execute_upgrade(at(1)), Err(ArenaError::NoPendingUpgrade));
    assert_eq!(a.cancel_upgrade(), Err(ArenaError::NoPendingUpgrade));
    let e = a.propose_upgrade([9u8; 32], at(1)).unwrap();
    assert_eq!(e, vec![Effect::Emit(Event::UpgradeProposed { hash: [9u8; 32], execute_after: T0 + 172_800 })]);
    assert_eq!(a.pending_upgrade(), Some(([9u8; 32], T0 + 172_800)));
    assert_eq!(a.propose_upgrade([8u8; 32], at(1)), Err(ArenaError::UpgradeAlreadyPending));
    let edge = Ledger { timestamp: T0 + 172_800, sequence: 5 };
    assert_eq!(a.execute_upgrade(edge), Err(ArenaError::TimelockNotExpired));
    let later = Ledger { timestamp: T0 + 172_801, sequence: 5 };
    assert_eq!(a.execute_upgrade(later), Ok(vec![
        Effect::Emit(Event::UpgradeExecuted { hash: [9u8; 32] }),
        Effect::UpdateWasm { hash: [9u8; 32] },
    ]));
    assert_eq!(a.pending_upgrade(), None);
    a.propose_upgrade([7u8; 32], at(1)).unwrap();
    assert_eq!(a.cancel_upgrade(), Ok(vec![Effect::Emit(Event::UpgradeCancelled)]));
    assert_eq!(a.pending_upgrade(), None);
}

#[test]
fn snapshot_and_full_state() {
    let mut a = configured();
    assert_eq!(ArenaContract::new().get_full_state(addr(10)), Err(ArenaError::NotInitialized));
    assert!(ArenaContract::new().get_arena_state(3).is_err());
    a.set_token(addr(200)).unwrap();
    a.join(addr(10), STAKE).unwrap();
    a.join(addr(11), STAKE).unwrap();
    let s = a.get_arena_state(3).unwrap();
    assert_eq!(s.arena_id, 3);
    assert_eq!(s.state, ArenaState::Pending);
    assert_eq!(s.total_players, 2);
    assert_eq!(s.survivors, vec![addr(10), addr(11)]);
    assert!(s.eliminated.is_empty());
    assert_eq!(s.winner, None);
    assert_eq!(a.get_full_state(addr(10)), Ok(FullStateView {
        survivors_count: 2,
        max_capacity: 10_000,
        round_number: 0,
        current_stake: 0,
        potential_payout: 0,
        is_active: true,
        has_won: false,
    }));
}

#[test]
fn metadata_read_gives_back_the_last_write_per_arena() {
    let mut a = configured();
    a.set_metadata(1, b"One".to_vec(), None, addr(2), at(1)).unwrap();
    a.set_metadata(2, b"Two".to_vec(), Some(b"second".to_vec()), addr(3), at(2)).unwrap();
    a.set_metadata(1, b"Uno".to_vec(), None, addr(4), at(3)).unwrap();
    assert_eq!(a.get_metadata(1).unwrap().name, b"Uno".to_vec());
    assert_eq!(a.get_metadata(1).unwrap().host, addr(4));
    let two = a.get_metadata(2).unwrap();
    assert_eq!(two.name, b"Two".to_vec());
    assert_eq!(two.description, Some(b"second".to_vec()));
    assert_eq!(a.get_metadata(3), None);
}
