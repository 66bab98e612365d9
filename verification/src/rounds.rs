//! Rounds: starting one, committing to a choice, revealing it, timing out.
use vstd::prelude::*;
use crate::addr::{
    Addr, bytes32_eq,
};
use crate::admin::{
    set_state, state_change_effects,
};
use crate::bounds::MIN_ARENA_PARTICIPANTS;
use crate::events::{
    Effect, Event,
};
use crate::model::{
    lifecycle_step, lemma_history_kept, lemma_history_after_elimination, history_wf, backs, backed, ArenaContract, ArenaCore, Commitment, Ledger, PlayerRecord, committed_in, find_player, has_survivor, is_survivor, lemma_count_none, lemma_count_update, reveals_of, revealed_in, round_no, state_wf,
};
use crate::types::{
    ArenaError, ArenaState, Choice, RoundState,
};
use crate::crypto::{
    commitment_digest, commitment_of,
};
use crate::events::ChoiceSubmitted;
use crate::model::{
    ChoiceEntry, RoundChoice, copy_players, index_of,
};
use crate::resolution::{
    limit_outcome, max_rounds_reached, resolve_error, resolve_in, round_outcome,
};

verus! {

/// Why `start_round` refuses, in the order it checks.
pub open spec fn start_error(core: ArenaCore, ledger: Ledger) -> Option<ArenaError> {
    if core.paused {
        Some(ArenaError::Paused)
    } else if core.finished {
        Some(ArenaError::GameAlreadyFinished)
    } else if core.round is None {
        Some(ArenaError::NotInitialized)
    } else if core.round.unwrap().active {
        Some(ArenaError::RoundAlreadyActive)
    } else if core.survivor_count < MIN_ARENA_PARTICIPANTS {
        Some(ArenaError::NotEnoughPlayers)
    } else if core.config is None {
        Some(ArenaError::NotInitialized)
    } else if ledger.sequence + core.config.unwrap().round_speed_in_ledgers > u32::MAX {
        Some(ArenaError::RoundDeadlineOverflow)
    } else if ledger.sequence + 2 * core.config.unwrap().round_speed_in_ledgers > u32::MAX {
        Some(ArenaError::RoundDeadlineOverflow)
    } else if ledger.timestamp + core.config.unwrap().round_duration_seconds > u64::MAX {
        Some(ArenaError::RoundDeadlineOverflow)
    } else {
        None
    }
}

/// The round `start_round` opens.
pub open spec fn next_round(core: ArenaCore, ledger: Ledger) -> RoundState {
    let c = core.config.unwrap();
    RoundState {
        round_number: (core.round.unwrap().round_number + 1) as u32,
        round_start_ledger: ledger.sequence,
        round_deadline_ledger: (ledger.sequence + c.round_speed_in_ledgers) as u32,
        round_start: ledger.timestamp,
        round_deadline: (ledger.timestamp + c.round_duration_seconds) as u64,
        active: true,
        total_submissions: 0,
        timed_out: false,
        finished: false,
    }
}

/// The last ledger on which a round's choices may still be revealed.
pub open spec fn reveal_deadline(core: ArenaCore) -> int {
    core.round.unwrap().round_deadline_ledger + core.config.unwrap().round_speed_in_ledgers
}

/// Why `commit_choice` refuses, in the order it checks.
pub open spec fn commit_error(
    core: ArenaCore,
    players: Seq<PlayerRecord>,
    player: Addr,
    round_number: u32,
    ledger: Ledger,
) -> Option<ArenaError> {
    if core.paused {
        Some(ArenaError::Paused)
    } else if core.round is None {
        Some(ArenaError::NotInitialized)
    } else if !core.round.unwrap().active || core.round.unwrap().round_number != round_number {
        Some(ArenaError::WrongRoundNumber)
    } else if ledger.sequence > core.round.unwrap().round_deadline_ledger {
        Some(ArenaError::CommitDeadlinePassed)
    } else if !has_survivor(players, player) {
        Some(ArenaError::NotASurvivor)
    } else if exists|i: int| 0 <= i < players.len() && (#[trigger] players[i]).addr == player
        && committed_in(players[i], round_number) {
        Some(ArenaError::AlreadyCommitted)
    } else {
        None
    }
}

/// Why `timeout_round` refuses, in the order it checks.
pub open spec fn timeout_error(core: ArenaCore, ledger: Ledger) -> Option<ArenaError> {
    if core.paused {
        Some(ArenaError::Paused)
    } else if core.round is None {
        Some(ArenaError::NotInitialized)
    } else if !core.round.unwrap().active {
        Some(ArenaError::NoActiveRound)
    } else if ledger.sequence <= reveal_deadline(core) {
        Some(ArenaError::RoundStillOpen)
    } else {
        None
    }
}

/// Why revealing `choice` with a commitment digest `digest` is refused, in the order
/// the checks are made (before any resolution the reveal triggers).
pub open spec fn reveal_error(
    core: ArenaCore,
    players: Seq<PlayerRecord>,
    player: Addr,
    round_number: u32,
    digest: [u8; 32],
    ledger: Ledger,
) -> Option<ArenaError> {
    if core.paused {
        Some(ArenaError::Paused)
    } else if core.round is None {
        Some(ArenaError::NotInitialized)
    } else if !core.round.unwrap().active || core.round.unwrap().round_number != round_number {
        Some(ArenaError::WrongRoundNumber)
    } else if ledger.sequence <= core.round.unwrap().round_deadline_ledger {
        Some(ArenaError::SubmissionWindowClosed)
    } else if ledger.timestamp > core.round.unwrap().round_deadline {
        Some(ArenaError::SubmissionWindowClosed)
    } else if !(index_of(players, player) matches Some(i) && committed_in(players[i], round_number)) {
        Some(ArenaError::NoCommitment)
    } else if players[index_of(players, player).unwrap()].commitment.unwrap().digest != digest {
        Some(ArenaError::CommitmentMismatch)
    } else if revealed_in(players[index_of(players, player).unwrap()], round_number) {
        Some(ArenaError::SubmissionAlreadyExists)
    } else {
        None
    }
}

/// The storage right after a reveal is recorded, before any resolution.
pub open spec fn revealed_core(core: ArenaCore) -> ArenaCore {
    let rs = core.round.unwrap();
    ArenaCore { round: Some(RoundState { total_submissions: (rs.total_submissions + 1) as u32, ..rs }), ..core }
}

pub open spec fn revealed_players(players: Seq<PlayerRecord>, player: Addr, round_number: u32, choice: Choice) -> Seq<
    PlayerRecord,
> {
    let i = index_of(players, player).unwrap();
    players.update(i, PlayerRecord { revealed: Some(RoundChoice { round: round_number, choice }), ..players[i] })
}

/// The reveal completes the round: every survivor has revealed.
pub open spec fn completes_round(core: ArenaCore) -> bool {
    core.survivor_count > 0 && core.round.unwrap().total_submissions == core.survivor_count
}

/// The round closed for resolution.
pub open spec fn closed_core(core: ArenaCore) -> ArenaCore {
    ArenaCore { round: Some(RoundState { active: false, ..core.round.unwrap() }), ..core }
}

/// What resolving the round in `core` with `coin` leads to, from `effects0` on.
pub open spec fn resolves_to(
    core: ArenaCore,
    p: Seq<PlayerRecord>,
    coin: bool,
    core2: ArenaCore,
    p2: Seq<PlayerRecord>,
    added: Seq<Effect>,
    round: RoundState,
) -> bool {
    &&& resolve_error(core, p, coin) is None
    &&& if max_rounds_reached(core) {
        limit_outcome(core, p, core2, p2, added, round)
    } else {
        round_outcome(core, p, coin, core2, p2, added, round)
    }
}

/// The outcome of revealing `choice` against the digest `digest`, with `coin` as
/// the tie-breaker should the reveal complete the round.
pub open spec fn reveal_post(
    old: ArenaContract,
    new: ArenaContract,
    r: Result<Vec<Effect>, ArenaError>,
    ledger: Ledger,
    player: Addr,
    round_number: u32,
    choice: Choice,
    digest: [u8; 32],
    coin: bool,
) -> bool {
    let err = reveal_error(old.core, old.players@, player, round_number, digest, ledger);
    let c1 = revealed_core(old.core);
    let p1 = revealed_players(old.players@, player, round_number, choice);
    let submitted = Effect::Emit(Event::ChoiceSubmitted(ChoiceSubmitted { arena_id: 0, round: round_number, player }));
    match r {
        Err(e) => {
            &&& new == old
            &&& (err == Some(e) || (err is None && completes_round(c1) && resolve_error(closed_core(c1), p1, coin) == Some(e)))
        },
        Ok(effects) => {
            &&& err is None
            &&& new.history@ == old.history@.push(ChoiceEntry { round: round_number, player, choice })
            &&& new.metadata == old.metadata
            &&& effects@.len() >= 1
            &&& effects@[0] == submitted
            &&& if completes_round(c1) {
                exists|round: RoundState| #[trigger] resolves_to(closed_core(c1), p1, coin, new.core, new.players@,
                    effects@.skip(1), round)
            } else {
                new.core == c1 && new.players@ == p1 && effects@ == seq![submitted]
            }
        },
    }
}

/// Why `resolve_round` refuses before resolving.
pub open spec fn resolve_round_error(core: ArenaCore, ledger: Ledger) -> Option<ArenaError> {
    if core.paused {
        Some(ArenaError::Paused)
    } else if core.round is None {
        Some(ArenaError::NotInitialized)
    } else if core.round.unwrap().finished {
        Some(ArenaError::NoActiveRound)
    } else if core.round.unwrap().active && ledger.sequence <= reveal_deadline(core) {
        Some(ArenaError::RoundStillOpen)
    } else if core.round.unwrap().active && ledger.timestamp < core.round.unwrap().round_deadline {
        Some(ArenaError::RoundStillOpen)
    } else {
        None
    }
}

/// The round as `resolve_round` closes it: an open round is timed out.
pub open spec fn timed_out_core(core: ArenaCore) -> ArenaCore {
    let rs = core.round.unwrap();
    if rs.active {
        ArenaCore { round: Some(RoundState { active: false, timed_out: true, ..rs }), ..core }
    } else {
        core
    }
}

/// The outcome of `resolve_round` with `coin` as the tie-breaker.
pub open spec fn resolve_post(
    old: ArenaContract,
    new: ArenaContract,
    r: Result<(RoundState, Vec<Effect>), ArenaError>,
    ledger: Ledger,
    coin: bool,
) -> bool {
    let err = resolve_round_error(old.core, ledger);
    let c1 = timed_out_core(old.core);
    match r {
        Err(e) => new == old && (err == Some(e) || (err is None && resolve_error(c1, old.players@, coin) == Some(e))),
        Ok((round, effects)) => {
            &&& err is None
            &&& new.history == old.history
            &&& new.metadata == old.metadata
            &&& resolves_to(c1, old.players@, coin, new.core, new.players@, effects@, round)
        },
    }
}

/// The one record of `a`, when there is one.
proof fn lemma_unique_index(p: Seq<PlayerRecord>, a: Addr, i: int)
    requires
        crate::model::distinct_addrs(p),
        0 <= i < p.len(),
        p[i].addr == a,
    ensures
        forall|k: int| 0 <= k < p.len() && (#[trigger] p[k]).addr == a ==> k == i,
{
    assert forall|k: int| 0 <= k < p.len() && (#[trigger] p[k]).addr == a implies k == i by {
        if k != i {
            assert(p[k].addr != p[i].addr);
        }
    }
}

/// Recording a reveal for round `n` keeps the record of reveals valid: the player
/// had nothing on record for that round, and the new entry agrees with their new
/// latest reveal.
pub proof fn lemma_history_after_reveal(
    core: ArenaCore,
    p: Seq<PlayerRecord>,
    h: Seq<ChoiceEntry>,
    i: int,
    choice: Choice,
)
    requires
        state_wf(core, p),
        history_wf(p, h),
        0 <= i < p.len(),
        !revealed_in(p[i], round_no(core)),
    ensures
        forall|j: int| 0 <= j < h.len() ==> !((#[trigger] h[j]).round == round_no(core) && h[j].player == p[i].addr),
        history_wf(
            p.update(i, PlayerRecord { revealed: Some(RoundChoice { round: round_no(core), choice }), ..p[i] }),
            h.push(ChoiceEntry { round: round_no(core), player: p[i].addr, choice }),
        ),
{
    let n = round_no(core);
    let player = p[i].addr;
    let q = p.update(i, PlayerRecord { revealed: Some(RoundChoice { round: n, choice }), ..p[i] });
    let e = ChoiceEntry { round: n, player, choice };
    let h2 = h.push(e);
    assert forall|j: int| 0 <= j < h.len() implies !((#[trigger] h[j]).round == n && h[j].player == player) by {
        assert(backed(p, h[j]));
        let k = choose|k: int| 0 <= k < p.len() && #[trigger] backs(p[k], h[j]);
        if h[j].player == player {
            assert(p[k].addr == p[i].addr);
            assert(k == i);
        }
    }
    assert forall|j: int| 0 <= j < h2.len() implies backed(q, #[trigger] h2[j]) by {
        if j == h.len() {
            assert(backs(q[i], h2[j]));
        } else {
            assert(h2[j] == h[j]);
            assert(backed(p, h[j]));
            let k = choose|k: int| 0 <= k < p.len() && #[trigger] backs(p[k], h[j]);
            if k == i {
                assert(backs(q[i], h[j]));
            } else {
                assert(q[k] == p[k]);
                assert(backs(q[k], h[j]));
            }
        }
    }
    assert forall|a: int, b: int| 0 <= a < b < h2.len() implies !(#[trigger] h2[a].round == #[trigger] h2[b].round
        && h2[a].player == h2[b].player) by {
        if b == h.len() {
            assert(h2[a] == h[a]);
        } else {
            assert(h2[a] == h[a] && h2[b] == h[b]);
        }
    }
}

impl ArenaContract {
    /// Opens the next round: commitments are taken for one round-speed of ledgers,
    /// reveals for one more.
    pub fn start_round(&mut self, ledger: Ledger) -> (r: Result<(RoundState, Vec<Effect>), ArenaError>)
        requires
            old(self).wf(),
            old(self).core.paused || old(self).core.state == ArenaState::Pending || old(self).core.state
                == ArenaState::Active,
            start_error(old(self).core, ledger) is None ==> old(self).round_number() < u32::MAX,
        ensures
            final(self).wf(),
            lifecycle_step(old(self).core.state, final(self).core.state),
            match r {
                Err(e) => start_error(old(self).core, ledger) == Some(e) && *final(self) == *old(self),
                Ok((round, effects)) => {
                    let new_state = if round.round_number == 1 { ArenaState::Active } else { old(self).core.state };
                    &&& start_error(old(self).core, ledger) is None
                    &&& round == next_round(old(self).core, ledger)
                    &&& final(self).core == (ArenaCore { round: Some(round), state: new_state, ..old(self).core })
                    &&& final(self).players == old(self).players
                    &&& final(self).history == old(self).history
                    &&& final(self).metadata == old(self).metadata
                    &&& effects@ == state_change_effects(old(self).core.state, new_state, old(self).core.factory,
                        old(self).core.arena_id) + seq![Effect::Emit(Event::RoundStarted {
                            round_number: round.round_number,
                            start_ledger: ledger.sequence,
                            commit_deadline_ledger: round.round_deadline_ledger,
                            reveal_deadline_ledger: (round.round_deadline_ledger
                                + old(self).core.config.unwrap().round_speed_in_ledgers) as u32,
                        })]
                },
            },
    {
        if self.core.paused {
            return Err(ArenaError::Paused);
        }
        if self.core.finished {
            return Err(ArenaError::GameAlreadyFinished);
        }
        let round = match self.core.round {
            Some(rs) => rs,
            None => return Err(ArenaError::NotInitialized),
        };
        if round.active {
            return Err(ArenaError::RoundAlreadyActive);
        }
        if self.core.survivor_count < MIN_ARENA_PARTICIPANTS {
            return Err(ArenaError::NotEnoughPlayers);
        }
        let config = match self.core.config {
            Some(c) => c,
            None => return Err(ArenaError::NotInitialized),
        };
        let start_ledger = ledger.sequence;
        if start_ledger > u32::MAX - config.round_speed_in_ledgers {
            return Err(ArenaError::RoundDeadlineOverflow);
        }
        let commit_deadline = start_ledger + config.round_speed_in_ledgers;
        if commit_deadline > u32::MAX - config.round_speed_in_ledgers {
            return Err(ArenaError::RoundDeadlineOverflow);
        }
        let reveal_deadline_ledger = commit_deadline + config.round_speed_in_ledgers;
        let round_start = ledger.timestamp;
        if round_start > u64::MAX - config.round_duration_seconds {
            return Err(ArenaError::RoundDeadlineOverflow);
        }
        let round_deadline = round_start + config.round_duration_seconds;
        let new_round = RoundState {
            round_number: round.round_number + 1,
            round_start_ledger: start_ledger,
            round_deadline_ledger: commit_deadline,
            round_start,
            round_deadline,
            active: true,
            total_submissions: 0,
            timed_out: false,
            finished: false,
        };
        let mut core = self.core;
        core.round = Some(new_round);
        let mut effects: Vec<Effect> = Vec::new();
        if new_round.round_number == 1 {
            set_state(&mut core, ArenaState::Active, &mut effects);
        } else {
            assert(effects@ =~= state_change_effects(old(self).core.state, old(self).core.state,
                old(self).core.factory, old(self).core.arena_id));
        }
        effects.push(Effect::Emit(Event::RoundStarted {
            round_number: new_round.round_number,
            start_ledger,
            commit_deadline_ledger: commit_deadline,
            reveal_deadline_ledger,
        }));
        proof {
            let p = self.players@;
            let n = new_round.round_number;
            assert forall|i: int| 0 <= i < p.len() implies !revealed_in(#[trigger] p[i], n) && !committed_in(p[i], n) by {}
            lemma_count_none(p, reveals_of(n));
        }
        self.core = core;
        Ok((new_round, effects))
    }

    /// A survivor commits to a hidden choice for the open round.
    pub fn commit_choice(&mut self, player: Addr, round_number: u32, commitment: [u8; 32], ledger: Ledger) -> (r: Result<
        (),
        ArenaError,
    >)
        requires
            old(self).wf(),
        ensures
            final(self).wf(),
            lifecycle_step(old(self).core.state, final(self).core.state),
            match r {
                Err(e) => commit_error(old(self).core, old(self).players@, player, round_number, ledger) == Some(e)
                    && *final(self) == *old(self),
                Ok(_) => {
                    &&& commit_error(old(self).core, old(self).players@, player, round_number, ledger) is None
                    &&& exists|i: int| 0 <= i < old(self).players@.len() && (#[trigger] old(self).players@[i]).addr == player
                        && final(self).players@ == old(self).players@.update(i, PlayerRecord {
                            commitment: Some(Commitment { round: round_number, digest: commitment }),
                            ..old(self).players@[i]
                        })
                    &&& final(self).core == old(self).core
                    &&& final(self).history == old(self).history
                    &&& final(self).metadata == old(self).metadata
                },
            },
    {
        if self.core.paused {
            return Err(ArenaError::Paused);
        }
        let round = match self.core.round {
            Some(rs) => rs,
            None => return Err(ArenaError::NotInitialized),
        };
        if !round.active || round.round_number != round_number {
            return Err(ArenaError::WrongRoundNumber);
        }
        if ledger.sequence > round.round_deadline_ledger {
            return Err(ArenaError::CommitDeadlinePassed);
        }
        let idx = match find_player(&self.players, &player) {
            Some(i) => i,
            None => return Err(ArenaError::NotASurvivor),
        };
        proof {
            lemma_unique_index(self.players@, player, idx as int);
        }
        let rec = self.players[idx];
        if !rec.survivor {
            return Err(ArenaError::NotASurvivor);
        }
        let already = match rec.commitment {
            Some(c) => c.round == round_number,
            None => false,
        };
        if already {
            return Err(ArenaError::AlreadyCommitted);
        }
        let new_rec = PlayerRecord { commitment: Some(Commitment { round: round_number, digest: commitment }), ..rec };
        self.players.set(idx, new_rec);
        proof {
            let p = old(self).players@;
            let q = self.players@;
            lemma_count_update(p, idx as int, new_rec, is_survivor());
            lemma_count_update(p, idx as int, new_rec, reveals_of(round_number));
            assert(!revealed_in(rec, round_number));
            assert forall|j: int| 0 <= j < q.len() implies (#[trigger] q[j]).addr == p[j].addr && q[j].survivor
                == p[j].survivor && q[j].eliminated == p[j].eliminated && q[j].refunded == p[j].refunded
                && q[j].revealed == p[j].revealed by {}
            lemma_history_kept(p, q, self.history@);
        }
        Ok(())
    }

    /// `player` reveals `choice` for the open round; `digest` is the hash of the
    /// reveal, which must equal the stored commitment. When every survivor has
    /// revealed, the round is resolved at once, with `coin` breaking a tie.
    pub fn apply_reveal(
        &mut self,
        ledger: Ledger,
        player: Addr,
        round_number: u32,
        choice: Choice,
        digest: [u8; 32],
        coin: bool,
    ) -> (r: Result<Vec<Effect>, ArenaError>)
        requires
            old(self).wf(),
        ensures
            final(self).wf(),
            lifecycle_step(old(self).core.state, final(self).core.state),
            reveal_post(*old(self), *final(self), r, ledger, player, round_number, choice, digest, coin),
    {
        if self.core.paused {
            return Err(ArenaError::Paused);
        }
        let round = match self.core.round {
            Some(rs) => rs,
            None => return Err(ArenaError::NotInitialized),
        };
        if !round.active || round.round_number != round_number {
            return Err(ArenaError::WrongRoundNumber);
        }
        if ledger.sequence <= round.round_deadline_ledger {
            return Err(ArenaError::SubmissionWindowClosed);
        }
        if ledger.timestamp > round.round_deadline {
            return Err(ArenaError::SubmissionWindowClosed);
        }
        let idx = match find_player(&self.players, &player) {
            Some(i) => i,
            None => return Err(ArenaError::NoCommitment),
        };
        proof {
            lemma_unique_index(self.players@, player, idx as int);
            assert(index_of(self.players@, player) == Some(idx as int));
        }
        let rec = self.players[idx];
        let stored = match rec.commitment {
            Some(c) => {
                if c.round != round_number {
                    return Err(ArenaError::NoCommitment);
                }
                c.digest
            },
            None => return Err(ArenaError::NoCommitment),
        };
        if !bytes32_eq(&stored, &digest) {
            return Err(ArenaError::CommitmentMismatch);
        }
        let already = match rec.revealed {
            Some(rc) => rc.round == round_number,
            None => false,
        };
        if already {
            return Err(ArenaError::SubmissionAlreadyExists);
        }
        // Record the reveal.

        let ghost p0 = self.players@;
        let ghost c0 = self.core;
        let new_rec = PlayerRecord { revealed: Some(RoundChoice { round: round_number, choice }), ..rec };
        let mut players = copy_players(&self.players);
        players.set(idx, new_rec);
        proof {
            lemma_count_update(p0, idx as int, new_rec, reveals_of(round_number));
            lemma_count_update(p0, idx as int, new_rec, is_survivor());
            crate::model::lemma_count_strict(p0, reveals_of(round_number), is_survivor(), idx as int);
        }
        let mut core = self.core;
        let total = round.total_submissions + 1;
        core.round = Some(RoundState { total_submissions: total, ..round });
        let mut effects: Vec<Effect> = Vec::new();
        effects.push(Effect::Emit(Event::ChoiceSubmitted(ChoiceSubmitted { arena_id: 0, round: round_number, player })));
        proof {
            assert(players@ == revealed_players(p0, player, round_number, choice));
            assert(core == revealed_core(c0));
            let q = players@;
            assert forall|j: int| 0 <= j < q.len() implies (#[trigger] q[j]).addr == p0[j].addr && q[j].survivor
                == p0[j].survivor && q[j].eliminated == p0[j].eliminated && q[j].refunded == p0[j].refunded
                && q[j].commitment == p0[j].commitment by {}
            assert(state_wf(core, players@));
        }
        let completes = core.survivor_count > 0 && total == core.survivor_count;
        let ghost mut witness: RoundState = round;
        assert(completes == completes_round(revealed_core(c0)));
        if completes {
            core.round = Some(RoundState { total_submissions: total, active: false, ..round });
            let ghost c1 = core;
            let ghost p1 = players@;
            assert(c1 == closed_core(revealed_core(c0)));
            assert(state_wf(core, players@));
            let ghost e1 = effects@;
            match resolve_in(&mut core, &mut players, &mut effects, coin) {
                Err(e) => {
                    return Err(e);
                },
                Ok(resolved) => {
                    proof {
                        assert(effects@.take(1) =~= e1);
                        assert(effects@[0] == e1[0]);
                        assert(resolves_to(c1, p1, coin, core, players@, effects@.skip(1), resolved));
                        witness = resolved;
                    }
                },
            }
        } else {
            assert(effects@ =~= seq![Effect::Emit(Event::ChoiceSubmitted(ChoiceSubmitted { arena_id: 0, round: round_number, player }))]);
        }
        let ghost c1 = revealed_core(c0);
        let ghost p1 = revealed_players(p0, player, round_number, choice);
        self.core = core;
        self.players = players;
        self.history.push(ChoiceEntry { round: round_number, player, choice });
        proof {
            lemma_history_after_reveal(c0, p0, old(self).history@, idx as int, choice);
            assert(p1 == p0.update(idx as int, PlayerRecord {
                revealed: Some(RoundChoice { round: round_no(c0), choice }),
                ..p0[idx as int]
            }));
            if completes {
                lemma_history_after_elimination(p1, self.players@, self.history@);
            }
        }
        assert(reveal_error(c0, p0, player, round_number, digest, ledger) is None);
        if completes {
            assert(resolves_to(closed_core(c1), p1, coin, self.core, self.players@, effects@.skip(1), witness));
        }
        assert(effects@[0] == Effect::Emit(Event::ChoiceSubmitted(ChoiceSubmitted { arena_id: 0, round: round_number, player })));
        assert(reveal_post(*old(self), *self, Ok::<Vec<Effect>, ArenaError>(effects), ledger, player, round_number, choice, digest, coin));
        Ok(effects)
    }

    /// `player` reveals `choice` and `nonce` for the open round; the host hashes the
    /// reveal, and `coin` breaks a tie should the reveal complete the round.
    pub fn reveal_choice(
        &mut self,
        env: &soroban_sdk::Env,
        ledger: Ledger,
        player: Addr,
        round_number: u32,
        choice: Choice,
        nonce: [u8; 32],
        coin: bool,
    ) -> (r: Result<Vec<Effect>, ArenaError>)
        requires
            old(self).wf(),
        ensures
            final(self).wf(),
            lifecycle_step(old(self).core.state, final(self).core.state),
            exists|digest: [u8; 32]| digest@ == commitment_of(choice, nonce, player)
                && #[trigger] reveal_post(*old(self), *final(self), r, ledger, player, round_number, choice, digest, coin),
    {
        let digest = commitment_digest(env, choice, &nonce, &player);
        let r = self.apply_reveal(ledger, player, round_number, choice, digest, coin);
        assert(reveal_post(*old(self), *self, r, ledger, player, round_number, choice, digest, coin));
        r
    }

    /// Resolves the current round: an open round once both its reveal window and
    /// its deadline have passed, a closed one at any time. `coin` breaks a tie.
    pub fn resolve_round(&mut self, ledger: Ledger, coin: bool) -> (r: Result<(RoundState, Vec<Effect>), ArenaError>)
        requires
            old(self).wf(),
        ensures
            final(self).wf(),
            lifecycle_step(old(self).core.state, final(self).core.state),
            resolve_post(*old(self), *final(self), r, ledger, coin),
    {
        if self.core.paused {
            return Err(ArenaError::Paused);
        }
        let round = match self.core.round {
            Some(rs) => rs,
            None => return Err(ArenaError::NotInitialized),
        };
        if round.finished {
            return Err(ArenaError::NoActiveRound);
        }
        let mut core = self.core;
        if round.active {
            let config = self.core.config.unwrap();
            if ledger.sequence <= round.round_deadline_ledger + config.round_speed_in_ledgers {
                return Err(ArenaError::RoundStillOpen);
            }
            if ledger.timestamp < round.round_deadline {
                return Err(ArenaError::RoundStillOpen);
            }
            core.round = Some(RoundState { active: false, timed_out: true, ..round });
        }
        let ghost c1 = core;
        assert(c1 == timed_out_core(self.core));
        let mut players = copy_players(&self.players);
        let mut effects: Vec<Effect> = Vec::new();
        match resolve_in(&mut core, &mut players, &mut effects, coin) {
            Err(e) => Err(e),
            Ok(resolved) => {
                proof {
                    assert(effects@.skip(0) =~= effects@);
                }
                proof {
                    lemma_history_after_elimination(self.players@, players@, self.history@);
                }
                self.core = core;
                self.players = players;
                Ok((resolved, effects))
            },
        }
    }

    /// Closes an open round whose reveal window has passed.
    pub fn timeout_round(&mut self, ledger: Ledger) -> (r: Result<(RoundState, Vec<Effect>), ArenaError>)
        requires
            old(self).wf(),
        ensures
            final(self).wf(),
            lifecycle_step(old(self).core.state, final(self).core.state),
            match r {
                Err(e) => timeout_error(old(self).core, ledger) == Some(e) && *final(self) == *old(self),
                Ok((round, effects)) => {
                    &&& timeout_error(old(self).core, ledger) is None
                    &&& round == (RoundState { active: false, timed_out: true, ..old(self).core.round.unwrap() })
                    &&& final(self).core == (ArenaCore { round: Some(round), ..old(self).core })
                    &&& final(self).players == old(self).players
                    &&& final(self).history == old(self).history
                    &&& final(self).metadata == old(self).metadata
                    &&& effects@ == seq![Effect::Emit(Event::RoundTimedOut {
                        round_number: round.round_number,
                        total_submissions: round.total_submissions,
                    })]
                },
            },
    {
        if self.core.paused {
            return Err(ArenaError::Paused);
        }
        let round = match self.core.round {
            Some(rs) => rs,
            None => return Err(ArenaError::NotInitialized),
        };
        if !round.active {
            return Err(ArenaError::NoActiveRound);
        }
        let config = self.core.config.unwrap();
        if ledger.sequence <= round.round_deadline_ledger + config.round_speed_in_ledgers {
            return Err(ArenaError::RoundStillOpen);
        }
        let closed = RoundState { active: false, timed_out: true, ..round };
        self.core.round = Some(closed);
        let mut effects: Vec<Effect> = Vec::new();
        effects.push(Effect::Emit(Event::RoundTimedOut {
            round_number: closed.round_number,
            total_submissions: closed.total_submissions,
        }));
        assert(effects@ =~= seq![Effect::Emit(Event::RoundTimedOut {
            round_number: closed.round_number,
            total_submissions: closed.total_submissions,
        })]);
        Ok((closed, effects))
    }
}

} // verus!
