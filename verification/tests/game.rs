//! Whole games played through the library.
use arena::addr::Addr;
use arena::crypto::commitment_digest;
use arena::events::{ChoiceSubmitted, Effect, Event, PlayerEliminated, PlayerJoined, RoundResolved, WinnerDeclared};
use arena::model::{ArenaContract, Ledger};
use arena::types::{ArenaError, ArenaState, ArenaStateChanged, Choice, UserStateView};
use soroban_sdk::Env;

const T0: u64 = 1_700_000_000;
const STAKE: i128 = 10_000_000;

fn addr(n: u8) -> Addr {
    Addr::Account([n; 32])
}

fn at(sequence: u32) -> Ledger {
    Ledger { timestamp: T0, sequence }
}

/// A configured arena (10-ledger rounds) with a token and the given players.
fn arena_with(players: &[u8]) -> ArenaContract {
    let mut a = ArenaContract::new();
    a.initialize(addr(1));
    a.init(10, STAKE, T0 + 7_200, at(1_000)).unwrap();
    a.set_token(addr(200)).unwrap();
    for p in players {
        a.join(addr(*p), STAKE).unwrap();
    }
    a
}

fn commit(a: &mut ArenaContract, env: &Env, p: u8, round: u32, choice: Choice) {
    let d = commitment_digest(env, choice, &[p; 32], &addr(p));
    a.commit_choice(addr(p), round, d, at(1_015)).unwrap();
}

fn open_choice(a: &mut ArenaContract, env: &Env, p: u8, round: u32, choice: Choice, coin: bool) -> Result<Vec<Effect>, ArenaError> {
    let d = commitment_digest(env, choice, &[p; 32], &addr(p));
    a.apply_reveal(at(1_021), addr(p), round, choice, d, coin)
}

fn changed(old_state: ArenaState, new_state: ArenaState) -> Effect {
    Effect::Emit(Event::StateChanged(ArenaStateChanged { old_state, new_state }))
}

#[test]
fn join_collects_the_stake_and_announces() {
    let mut a = arena_with(&[]);
    let effects = a.join(addr(10), STAKE).unwrap();
    assert_eq!(effects, vec![
        Effect::Collect { from: addr(10), amount: STAKE },
        Effect::Collect { from: addr(10), amount: STAKE },
        Effect::Emit(Event::PlayerJoined(PlayerJoined { arena_id: 0, player: addr(10), entry_fee: STAKE })),
    ]);
    assert_eq!(a.core.survivor_count, 1);
    assert_eq!(a.players.len(), 1);
    assert_eq!(a.join(addr(10), STAKE), Err(ArenaError::AlreadyJoined));
    assert_eq!(a.join(addr(11), STAKE - 1), Err(ArenaError::InvalidAmount));
}

#[test]
fn minority_side_wins_and_claims_the_pool() {
    let env = Env::default();
    let mut a = arena_with(&[10, 11, 12, 13]);
    let (round, effects) = a.start_round(at(1_010)).unwrap();
    assert_eq!(round.round_number, 1);
    assert_eq!(round.round_start_ledger, 1_010);
    assert_eq!(round.round_deadline_ledger, 1_020);
    assert!(round.active);
    assert_eq!(effects[0], changed(ArenaState::Pending, ArenaState::Active));
    assert_eq!(effects[1], Effect::Emit(Event::RoundStarted {
        round_number: 1,
        start_ledger: 1_010,
        commit_deadline_ledger: 1_020,
        reveal_deadline_ledger: 1_030,
    }));
    assert_eq!(a.state(), ArenaState::Active);
    a.set_winner(addr(13), 1_000, 50).unwrap();
    assert_eq!(a.core.prize_pool, 1_050);
    for p in [10u8, 11, 12] {
        commit(&mut a, &env, p, 1, Choice::Heads);
    }
    commit(&mut a, &env, 13, 1, Choice::Tails);
    for p in [10u8, 11, 12] {
        let e = open_choice(&mut a, &env, p, 1, Choice::Heads, true).unwrap();
        assert_eq!(e, vec![Effect::Emit(Event::ChoiceSubmitted(ChoiceSubmitted { arena_id: 0, round: 1, player: addr(p) }))]);
    }
    assert_eq!(a.get_round().unwrap().total_submissions, 3);
    let last = open_choice(&mut a, &env, 13, 1, Choice::Tails, true).unwrap();
    let mut expected = vec![Effect::Emit(Event::ChoiceSubmitted(ChoiceSubmitted { arena_id: 0, round: 1, player: addr(13) }))];
    for p in [10u8, 11, 12] {
        expected.push(Effect::Emit(Event::PlayerEliminated(PlayerEliminated {
            arena_id: 0,
            round: 1,
            player: addr(p),
            choice_made: Choice::Heads,
        })));
    }
    expected.push(Effect::Emit(Event::WinnerDeclared(WinnerDeclared {
        arena_id: 0,
        winner: addr(13),
        prize_pool: 1_050,
        yield_earned: 0,
        total_rounds: 1,
    })));
    expected.push(changed(ArenaState::Active, ArenaState::Completed));
    expected.push(Effect::Emit(Event::RoundResolved(RoundResolved {
        arena_id: 0,
        round: 1,
        heads_count: 3,
        tails_count: 1,
        eliminated: vec![addr(10), addr(11), addr(12)],
    })));
    assert_eq!(last, expected);
    assert_eq!(a.state(), ArenaState::Completed);
    assert_eq!(a.core.survivor_count, 1);
    assert!(a.get_round().unwrap().finished);
    assert!(!a.get_round().unwrap().active);
    assert_eq!(a.get_user_state(addr(13)), UserStateView { is_active: true, has_won: true });
    assert_eq!(a.get_user_state(addr(10)), UserStateView { is_active: false, has_won: false });
    assert_eq!(a.get_choice(1, addr(12)), Some(Choice::Heads));
    assert_eq!(a.get_choice(1, addr(13)), Some(Choice::Tails));
    assert_eq!(a.get_choice(2, addr(13)), None);
    // The winner takes the pool, once.
    assert_eq!(a.claim(addr(10)), Err(ArenaError::NotASurvivor));
    let (prize, effects) = a.claim(addr(13)).unwrap();
    assert_eq!(prize, 1_050);
    assert_eq!(effects, vec![
        Effect::Pay { to: addr(13), amount: 1_050 },
        Effect::Emit(Event::Claimed { winner: addr(13), prize: 1_050 }),
    ]);
    assert_eq!(a.core.prize_pool, 0);
    assert_eq!(a.claim(addr(13)), Err(ArenaError::NoPrizeToClaim));
}

#[test]
fn nobody_revealing_is_a_draw_that_splits_the_pool() {
    let mut a = arena_with(&[10, 11, 12]);
    a.start_round(at(1_010)).unwrap();
    a.set_winner(addr(10), 100, 0).unwrap();
    assert_eq!(a.timeout_round(at(1_030)).map(|r| r.0.round_number), Err(ArenaError::RoundStillOpen));
    let (timed_out, e) = a.timeout_round(at(1_031)).unwrap();
    assert!(timed_out.timed_out && !timed_out.active);
    assert_eq!(e, vec![Effect::Emit(Event::RoundTimedOut { round_number: 1, total_submissions: 0 })]);
    let (round, effects) = a.resolve_round(at(1_031), true).unwrap();
    assert!(round.finished);
    let mut expected = Vec::new();
    for p in [10u8, 11, 12] {
        expected.push(Effect::Emit(Event::PlayerEliminated(PlayerEliminated {
            arena_id: 0,
            round: 1,
            player: addr(p),
            choice_made: Choice::Heads,
        })));
    }
    for p in [10u8, 11, 12] {
        expected.push(Effect::Pay { to: addr(p), amount: 33 });
    }
    expected.push(Effect::Pay { to: addr(10), amount: 1 });
    expected.push(changed(ArenaState::Active, ArenaState::Completed));
    expected.push(Effect::Emit(Event::RoundResolved(RoundResolved {
        arena_id: 0,
        round: 1,
        heads_count: 0,
        tails_count: 0,
        eliminated: vec![addr(10), addr(11), addr(12)],
    })));
    assert_eq!(effects, expected);
    assert_eq!(a.core.prize_pool, 0);
    assert_eq!(a.core.survivor_count, 0);
    assert_eq!(a.state(), ArenaState::Completed);
    assert_eq!(a.resolve_round(at(1_040), true).map(|r| r.0), Err(ArenaError::NoActiveRound));
}

#[test]
fn a_tie_is_broken_by_the_coin() {
    let env = Env::default();
    for (coin, winner, loser) in [(true, 10u8, 11u8), (false, 11u8, 10u8)] {
        let mut a = arena_with(&[10, 11]);
        a.start_round(at(1_010)).unwrap();
        commit(&mut a, &env, 10, 1, Choice::Heads);
        commit(&mut a, &env, 11, 1, Choice::Tails);
        open_choice(&mut a, &env, 10, 1, Choice::Heads, coin).unwrap();
        let e = open_choice(&mut a, &env, 11, 1, Choice::Tails, coin).unwrap();
        assert!(e.contains(&Effect::Emit(Event::WinnerDeclared(WinnerDeclared {
            arena_id: 0,
            winner: addr(winner),
            prize_pool: 0,
            yield_earned: 0,
            total_rounds: 1,
        }))));
        assert_eq!(a.get_user_state(addr(winner)), UserStateView { is_active: true, has_won: true });
        assert_eq!(a.get_user_state(addr(loser)), UserStateView { is_active: false, has_won: false });
    }
}

#[test]
fn an_even_split_continues_to_the_next_round() {
    let env = Env::default();
    let mut a = arena_with(&[10, 11, 12, 13]);
    a.start_round(at(1_010)).unwrap();
    commit(&mut a, &env, 10, 1, Choice::Heads);
    commit(&mut a, &env, 11, 1, Choice::Heads);
    commit(&mut a, &env, 12, 1, Choice::Tails);
    commit(&mut a, &env, 13, 1, Choice::Tails);
    open_choice(&mut a, &env, 10, 1, Choice::Heads, false).unwrap();
    open_choice(&mut a, &env, 11, 1, Choice::Heads, false).unwrap();
    open_choice(&mut a, &env, 12, 1, Choice::Tails, false).unwrap();
    let e = open_choice(&mut a, &env, 13, 1, Choice::Tails, false).unwrap();
    // Tails survives the tie; the game goes on.
    assert_eq!(e.last(), Some(&Effect::Emit(Event::RoundResolved(RoundResolved {
        arena_id: 0,
        round: 1,
        heads_count: 2,
        tails_count: 2,
        eliminated: vec![addr(10), addr(11)],
    }))));
    assert_eq!(a.state(), ArenaState::Active);
    assert_eq!(a.core.survivor_count, 2);
    assert!(!a.core.finished);
    let (r2, effects) = a.start_round(Ledger { timestamp: T0 + 100, sequence: 1_100 }).unwrap();
    assert_eq!(r2.round_number, 2);
    assert_eq!(effects.len(), 1);
    // An eliminated player can no longer commit.
    let d = commitment_digest(&env, Choice::Heads, &[10u8; 32], &addr(10));
    assert_eq!(a.commit_choice(addr(10), 2, d, at(1_105)), Err(ArenaError::NotASurvivor));
}

#[test]
fn a_non_revealer_is_eliminated_at_resolution() {
    let env = Env::default();
    let mut a = arena_with(&[10, 11, 12]);
    a.start_round(at(1_010)).unwrap();
    commit(&mut a, &env, 10, 1, Choice::Heads);
    commit(&mut a, &env, 11, 1, Choice::Heads);
    open_choice(&mut a, &env, 10, 1, Choice::Heads, true).unwrap();
    open_choice(&mut a, &env, 11, 1, Choice::Heads, true).unwrap();
    // The round is still open: resolving waits for the reveal window.
    assert_eq!(a.resolve_round(at(1_030), true).map(|r| r.0), Err(ArenaError::RoundStillOpen));
    let (round, _) = a.resolve_round(at(1_031), true).unwrap();
    assert!(round.timed_out && round.finished && !round.active);
    assert_eq!(a.core.survivor_count, 2);
    assert_eq!(a.get_user_state(addr(12)), UserStateView { is_active: false, has_won: false });
    assert_eq!(a.state(), ArenaState::Active);
}

#[test]
fn the_round_limit_splits_the_pool_among_survivors() {
    let mut a = arena_with(&[10, 11, 12]);
    a.set_max_rounds(1).unwrap();
    a.start_round(at(1_010)).unwrap();
    a.set_winner(addr(11), 10, 0).unwrap();
    a.timeout_round(at(1_031)).unwrap();
    let (round, effects) = a.resolve_round(at(1_031), true).unwrap();
    assert!(round.finished);
    assert_eq!(effects, vec![
        Effect::Pay { to: addr(10), amount: 3 },
        Effect::Pay { to: addr(11), amount: 3 },
        Effect::Pay { to: addr(12), amount: 3 },
        Effect::Pay { to: addr(10), amount: 1 },
        changed(ArenaState::Active, ArenaState::Completed),
    ]);
    assert_eq!(a.state(), ArenaState::Completed);
    assert_eq!(a.core.survivor_count, 3);
    assert!(a.core.finished);
}

#[test]
fn resolving_before_the_first_round_ends_the_game() {
    let mut a = arena_with(&[10, 11]);
    let (round, effects) = a.resolve_round(at(1_005), true).unwrap();
    assert_eq!(round.round_number, 0);
    assert_eq!(a.state(), ArenaState::Completed);
    assert_eq!(a.core.survivor_count, 0);
    assert_eq!(effects.len(), 4);
}

#[test]
fn reveal_checks_window_commitment_and_duplicates() {
    let env = Env::default();
    let mut a = arena_with(&[10, 11, 12]);
    a.start_round(at(1_010)).unwrap();
    commit(&mut a, &env, 10, 1, Choice::Heads);
    let d = commitment_digest(&env, Choice::Heads, &[10u8; 32], &addr(10));
    assert_eq!(a.commit_choice(addr(10), 1, d, at(1_015)), Err(ArenaError::AlreadyCommitted));
    assert_eq!(a.commit_choice(addr(11), 1, d, at(1_021)), Err(ArenaError::CommitDeadlinePassed));
    assert_eq!(a.commit_choice(addr(11), 2, d, at(1_015)), Err(ArenaError::WrongRoundNumber));
    assert_eq!(a.commit_choice(addr(99), 1, d, at(1_015)), Err(ArenaError::NotASurvivor));
    // During the commit window reveals are closed.
    assert_eq!(a.apply_reveal(at(1_020), addr(10), 1, Choice::Heads, d, true), Err(ArenaError::SubmissionWindowClosed));
    // After the round deadline time, too.
    let late = Ledger { timestamp: T0 + 1, sequence: 1_021 };
    assert_eq!(a.apply_reveal(late, addr(10), 1, Choice::Heads, d, true), Err(ArenaError::SubmissionWindowClosed));
    assert_eq!(a.apply_reveal(at(1_021), addr(11), 1, Choice::Heads, d, true), Err(ArenaError::NoCommitment));
    let wrong = commitment_digest(&env, Choice::Tails, &[10u8; 32], &addr(10));
    assert_eq!(a.apply_reveal(at(1_021), addr(10), 1, Choice::Tails, wrong, true), Err(ArenaError::CommitmentMismatch));
    assert!(a.apply_reveal(at(1_021), addr(10), 1, Choice::Heads, d, true).is_ok());
    assert_eq!(a.apply_reveal(at(1_021), addr(10), 1, Choice::Heads, d, true), Err(ArenaError::SubmissionAlreadyExists));
    assert_eq!(a.apply_reveal(at(1_021), addr(10), 2, Choice::Heads, d, true), Err(ArenaError::WrongRoundNumber));
}

#[test]
fn reveal_choice_hashes_through_the_host() {
    let env = Env::default();
    let mut a = arena_with(&[10, 11]);
    a.start_round(at(1_010)).unwrap();
    commit(&mut a, &env, 10, 1, Choice::Heads);
    commit(&mut a, &env, 11, 1, Choice::Heads);
    // The wrong nonce does not open the commitment.
    let bad = a.reveal_choice(&env, at(1_021), addr(10), 1, Choice::Heads, [0u8; 32], true);
    assert_eq!(bad, Err(ArenaError::CommitmentMismatch));
    let ok = a.reveal_choice(&env, at(1_021), addr(10), 1, Choice::Heads, [10u8; 32], true);
    assert!(ok.is_ok());
    let done = a.reveal_choice(&env, at(1_021), addr(11), 1, Choice::Heads, [11u8; 32], false).unwrap();
    // Both picked heads: both survive.
    assert_eq!(done.len(), 2);
    assert_eq!(a.core.survivor_count, 2);
    let r = a.resolve_round(at(1_050), true);
    assert_eq!(r.map(|x| x.0), Err(ArenaError::NoActiveRound));
}
