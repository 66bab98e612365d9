//! Read-only views of an arena, and its timelocked upgrade.
use vstd::prelude::*;
use crate::addr::{Addr, same_addr};
use crate::admin::capacity_of;
use crate::bounds::{MAX_ARENA_PARTICIPANTS, TIMELOCK_PERIOD};
use crate::events::{Effect, Event};
use crate::model::{lifecycle_step, 
    ArenaContract, ArenaCore, ChoiceEntry, Ledger, PlayerRecord, count_where, find_player, has_survivor,
    is_eliminated, is_survivor, lemma_count_disjoint,
};
use crate::resolution::survivor_addrs;
use crate::types::{ArenaConfig, ArenaError, ArenaState, ArenaStateView, Choice, FullStateView, UserStateView};
use crate::upgrade::{
    ExecuteTimePolicy, UpgradeErrors, UpgradeEvent, UpgradeSlot, cancel_upgrade, cleared, pending_of, execute_upgrade, pending_upgrade, propose_upgrade,
    timelock_open,
};

verus! {

/// Everything a client may want to know of an arena at once.
#[derive(Debug, PartialEq, Eq)]
pub struct ArenaSnapshot {
    pub arena_id: u64,
    pub state: ArenaState,
    pub current_round: u32,
    pub round_deadline: u64,
    pub total_players: u32,
    pub survivors: Vec<Addr>,
    pub eliminated: Vec<Addr>,
    pub prize_pool: i128,
    pub yield_earned: i128,
    pub winner: Option<Addr>,
    pub config: ArenaConfig,
}

/// The addresses of the eliminated players, in joining order.
pub open spec fn eliminated_list(s: Seq<PlayerRecord>) -> Seq<Addr>
    decreases s.len(),
{
    if s.len() == 0 {
        seq![]
    } else {
        eliminated_list(s.drop_last()) + if s.last().eliminated {
            seq![s.last().addr]
        } else {
            seq![]
        }
    }
}

/// The first player named winner, if any.
pub open spec fn first_winner(s: Seq<PlayerRecord>) -> Option<Addr>
    decreases s.len(),
{
    if s.len() == 0 {
        None
    } else if s[0].winner {
        Some(s[0].addr)
    } else {
        first_winner(s.drop_first())
    }
}

/// The choice `player` revealed in round `round_number`, if any.
pub open spec fn recorded_choice(h: Seq<ChoiceEntry>, round_number: u32, player: Addr) -> Option<Choice>
    decreases h.len(),
{
    if h.len() == 0 {
        None
    } else if h[0].round == round_number && h[0].player == player {
        Some(h[0].choice)
    } else {
        recorded_choice(h.drop_first(), round_number, player)
    }
}

/// `player` has been named winner.
pub open spec fn is_winner(s: Seq<PlayerRecord>, player: Addr) -> bool {
    exists|i: int| 0 <= i < s.len() && (#[trigger] s[i]).addr == player && s[i].winner
}

pub proof fn lemma_survivor_addrs_len(s: Seq<PlayerRecord>)
    ensures
        survivor_addrs(s).len() == count_where(s, is_survivor()),
    decreases s.len(),
{
    if s.len() > 0 {
        lemma_survivor_addrs_len(s.drop_last());
    }
}

proof fn lemma_eliminated_list_len(s: Seq<PlayerRecord>)
    ensures
        eliminated_list(s).len() == count_where(s, is_eliminated()),
    decreases s.len(),
{
    if s.len() > 0 {
        lemma_eliminated_list_len(s.drop_last());
    }
}

/// The addresses of the players whose record satisfies the flag, in order.
fn collect_flagged(players: &Vec<PlayerRecord>, eliminated: bool) -> (r: Vec<Addr>)
    ensures
        r@ == if eliminated { eliminated_list(players@) } else { survivor_addrs(players@) },
{
    let mut r: Vec<Addr> = Vec::new();
    let mut i: usize = 0;
    while i < players.len()
        invariant
            0 <= i <= players@.len(),
            r@ == if eliminated { eliminated_list(players@.take(i as int)) } else { survivor_addrs(players@.take(i as int)) },
        decreases players@.len() - i,
    {
        let rec = players[i];
        proof {
            let t = players@.take(i + 1);
            assert(t.drop_last() =~= players@.take(i as int));
        }
        let flag = if eliminated { rec.eliminated } else { rec.survivor };
        if flag {
            r.push(rec.addr);
        }
        assert(r@ =~= if eliminated { eliminated_list(players@.take(i + 1)) } else { survivor_addrs(players@.take(i + 1)) });
        i = i + 1;
    }
    assert(players@.take(players@.len() as int) =~= players@);
    r
}

/// The first player named winner.
fn find_winner(players: &Vec<PlayerRecord>) -> (r: Option<Addr>)
    ensures
        r == first_winner(players@),
{
    assert(players@.skip(0) =~= players@);
    let mut i: usize = 0;
    while i < players.len()
        invariant
            0 <= i <= players@.len(),
            first_winner(players@) == first_winner(players@.skip(i as int)),
        decreases players@.len() - i,
    {
        let rec = players[i];
        proof {
            let t = players@.skip(i as int);
            assert(t.drop_first() =~= players@.skip(i + 1));
            assert(t[0] == rec);
        }
        if rec.winner {
            return Some(rec.addr);
        }
        i = i + 1;
    }
    None
}

/// The arena event for an announcement of the upgrade flow.
pub open spec fn upgrade_event(e: UpgradeEvent) -> Event {
    match e {
        UpgradeEvent::Proposed { hash, execute_after } => Event::UpgradeProposed { hash, execute_after },
        UpgradeEvent::Executed { hash } => Event::UpgradeExecuted { hash },
        UpgradeEvent::Cancelled => Event::UpgradeCancelled,
    }
}

/// Emits each announcement of the upgrade flow as an arena event, in order.
fn announce(announced: &Vec<UpgradeEvent>) -> (effects: Vec<Effect>)
    ensures
        effects@ == announced@.map_values(|e: UpgradeEvent| Effect::Emit(upgrade_event(e))),
{
    let mut effects: Vec<Effect> = Vec::new();
    let mut i: usize = 0;
    while i < announced.len()
        invariant
            0 <= i <= announced@.len(),
            effects@ == announced@.take(i as int).map_values(|e: UpgradeEvent| Effect::Emit(upgrade_event(e))),
        decreases announced@.len() - i,
    {
        let event = match announced[i] {
            UpgradeEvent::Proposed { hash, execute_after } => Event::UpgradeProposed { hash, execute_after },
            UpgradeEvent::Executed { hash } => Event::UpgradeExecuted { hash },
            UpgradeEvent::Cancelled => Event::UpgradeCancelled,
        };
        effects.push(Effect::Emit(event));
        assert(announced@.take(i + 1) =~= announced@.take(i as int).push(announced@[i as int]));
        i = i + 1;
    }
    assert(announced@.take(announced@.len() as int) =~= announced@);
    effects
}

impl ArenaContract {
    /// The choice `player` revealed in round `round_number`.
    pub fn get_choice(&self, round_number: u32, player: Addr) -> (r: Option<Choice>)
        ensures
            r == recorded_choice(self.history@, round_number, player),
    {
        assert(self.history@.skip(0) =~= self.history@);
        let mut i: usize = 0;
        while i < self.history.len()
            invariant
                0 <= i <= self.history@.len(),
                recorded_choice(self.history@, round_number, player) == recorded_choice(
                    self.history@.skip(i as int),
                    round_number,
                    player,
                ),
            decreases self.history@.len() - i,
        {
            let e = self.history[i];
            proof {
                let t = self.history@.skip(i as int);
                assert(t.drop_first() =~= self.history@.skip(i + 1));
                assert(t[0] == e);
            }
            if e.round == round_number && same_addr(&e.player, &player) {
                return Some(e.choice);
            }
            i = i + 1;
        }
        proof {
            assert(self.history@.skip(i as int).len() == 0);
        }
        None
    }

    /// A snapshot of the whole arena.
    pub fn get_arena_state(&self, arena_id: u64) -> (r: Result<ArenaSnapshot, ArenaError>)
        requires
            self.wf(),
        ensures
            self.core.config is None ==> r == Err::<ArenaSnapshot, ArenaError>(ArenaError::NotInitialized),
            self.core.config is Some ==> (r matches Ok(s) && {
                let rs = self.core.round.unwrap();
                &&& s.arena_id == arena_id
                &&& s.state == self.core.state
                &&& s.current_round == rs.round_number
                &&& s.round_deadline == rs.round_deadline
                &&& s.survivors@ == survivor_addrs(self.players@)
                &&& s.eliminated@ == eliminated_list(self.players@)
                &&& s.total_players == survivor_addrs(self.players@).len() + eliminated_list(self.players@).len()
                &&& s.prize_pool == self.core.prize_pool
                &&& s.yield_earned == self.core.yield_earned
                &&& s.winner == first_winner(self.players@)
                &&& s.config == self.core.config.unwrap()
            }),
    {
        let config = match self.core.config {
            Some(c) => c,
            None => return Err(ArenaError::NotInitialized),
        };
        let round = self.core.round.unwrap();
        let survivors = collect_flagged(&self.players, false);
        let eliminated = collect_flagged(&self.players, true);
        proof {
            lemma_survivor_addrs_len(self.players@);
            lemma_eliminated_list_len(self.players@);
            lemma_count_disjoint(self.players@, is_survivor(), is_eliminated());
        }
        let total_players = (survivors.len() + eliminated.len()) as u32;
        let winner = find_winner(&self.players);
        Ok(ArenaSnapshot {
            arena_id,
            state: self.core.state,
            current_round: round.round_number,
            round_deadline: round.round_deadline,
            total_players,
            survivors,
            eliminated,
            prize_pool: self.core.prize_pool,
            yield_earned: self.core.yield_earned,
            winner,
            config,
        })
    }

    /// The compact summary of the arena.
    pub fn get_arena_state_view(&self, arena_id: u64) -> (r: Result<ArenaStateView, ArenaError>)
        ensures
            r == (match self.core.round {
                None => Err(ArenaError::NotInitialized),
                Some(rs) => Ok(ArenaStateView {
                    survivors_count: self.core.survivor_count,
                    max_capacity: capacity_of(self.core),
                    round_number: rs.round_number,
                    current_stake: self.core.prize_pool,
                    potential_payout: self.core.prize_pool,
                }),
            }),
    {
        let round = match self.core.round {
            Some(rs) => rs,
            None => return Err(ArenaError::NotInitialized),
        };
        let capacity = match self.core.capacity {
            Some(c) => c,
            None => MAX_ARENA_PARTICIPANTS,
        };
        Ok(ArenaStateView {
            survivors_count: self.core.survivor_count,
            max_capacity: capacity,
            round_number: round.round_number,
            current_stake: self.core.prize_pool,
            potential_payout: self.core.prize_pool,
        })
    }

    /// Where `player` stands.
    pub fn get_user_state(&self, player: Addr) -> (r: UserStateView)
        requires
            self.wf(),
        ensures
            r == (UserStateView {
                is_active: has_survivor(self.players@, player),
                has_won: self.core.finished && is_winner(self.players@, player),
            }),
    {
        let (is_active, winner) = match find_player(&self.players, &player) {
            Some(i) => {
                proof {
                    let p = self.players@;
                    assert forall|k: int| 0 <= k < p.len() && (#[trigger] p[k]).addr == player implies k == i by {
                        if k != i as int {
                            assert(p[k].addr != p[i as int].addr);
                        }
                    }
                }
                (self.players[i].survivor, self.players[i].winner)
            },
            None => (false, false),
        };
        UserStateView { is_active, has_won: self.core.finished && winner }
    }

    /// The arena summary and where `player` stands.
    pub fn get_full_state(&self, player: Addr) -> (r: Result<FullStateView, ArenaError>)
        requires
            self.wf(),
        ensures
            match r {
                Err(e) => self.core.round is None && e == ArenaError::NotInitialized,
                Ok(v) => self.core.round matches Some(rs) && v == (FullStateView {
                    survivors_count: self.core.survivor_count,
                    max_capacity: capacity_of(self.core),
                    round_number: rs.round_number,
                    current_stake: self.core.prize_pool,
                    potential_payout: self.core.prize_pool,
                    is_active: has_survivor(self.players@, player),
                    has_won: self.core.finished && is_winner(self.players@, player),
                }),
            },
    {
        let arena = match self.get_arena_state_view(0) {
            Ok(v) => v,
            Err(e) => return Err(e),
        };
        let user = self.get_user_state(player);
        Ok(FullStateView {
            survivors_count: arena.survivors_count,
            max_capacity: arena.max_capacity,
            round_number: arena.round_number,
            current_stake: arena.current_stake,
            potential_payout: arena.potential_payout,
            is_active: user.is_active,
            has_won: user.has_won,
        })
    }

    /// Proposes an upgrade to the code of `new_wasm_hash`, to run once the
    /// timelock has passed.
    pub fn propose_upgrade(&mut self, new_wasm_hash: [u8; 32], ledger: Ledger) -> (r: Result<Vec<Effect>, ArenaError>)
        requires
            old(self).wf(),
            old(self).core.upgrade.pending_hash is None ==> ledger.timestamp + TIMELOCK_PERIOD <= u64::MAX,
        ensures
            final(self).wf(),
            lifecycle_step(old(self).core.state, final(self).core.state),
            old(self).core.upgrade.pending_hash is Some ==> r == Err::<Vec<Effect>, ArenaError>(
                ArenaError::UpgradeAlreadyPending) && *final(self) == *old(self),
            old(self).core.upgrade.pending_hash is None ==> (r matches Ok(effects) && {
                let after = (ledger.timestamp + TIMELOCK_PERIOD) as u64;
                &&& final(self).core == (ArenaCore {
                    upgrade: UpgradeSlot { pending_hash: Some(new_wasm_hash), execute_after: Some(after) },
                    ..old(self).core
                })
                &&& final(self).players == old(self).players
                &&& final(self).history == old(self).history
                &&& final(self).metadata == old(self).metadata
                &&& effects@ == seq![Effect::Emit(Event::UpgradeProposed { hash: new_wasm_hash, execute_after: after })]
            }),
    {
        let mut slot = self.core.upgrade;
        let mut announced: Vec<UpgradeEvent> = Vec::new();
        match propose_upgrade(&mut slot, &mut announced, ledger.timestamp, TIMELOCK_PERIOD, &new_wasm_hash,
            ArenaError::UpgradeAlreadyPending) {
            Err(e) => Err(e),
            Ok(()) => {
                self.core.upgrade = slot;
                Ok(announce(&announced))
            },
        }
    }

    /// Runs the pending upgrade once its release time has passed (strictly).
    pub fn execute_upgrade(&mut self, ledger: Ledger) -> (r: Result<Vec<Effect>, ArenaError>)
        requires
            old(self).wf(),
        ensures
            final(self).wf(),
            lifecycle_step(old(self).core.state, final(self).core.state),
            match r {
                Err(e) => *final(self) == *old(self) && match pending_of(old(self).core.upgrade) {
                    Some((_, after)) => !timelock_open(ExecuteTimePolicy::StrictlyAfter, ledger.timestamp, after)
                        && e == ArenaError::TimelockNotExpired,
                    None => e == ArenaError::NoPendingUpgrade,
                },
                Ok(effects) => pending_of(old(self).core.upgrade) matches Some((h, after))
                    && timelock_open(ExecuteTimePolicy::StrictlyAfter, ledger.timestamp, after)
                    && final(self).core == (ArenaCore { upgrade: cleared(), ..old(self).core })
                    && final(self).players == old(self).players
                    && final(self).history == old(self).history
                    && final(self).metadata == old(self).metadata
                    && effects@ == seq![Effect::Emit(Event::UpgradeExecuted { hash: h }), Effect::UpdateWasm { hash: h }],
            },
    {
        let expected = match self.core.upgrade.pending_hash {
            Some(h) => h,
            None => [0u8; 32],
        };
        let errors = UpgradeErrors {
            no_pending: ArenaError::NoPendingUpgrade,
            timelock_not_expired: ArenaError::TimelockNotExpired,
            hash_mismatch: ArenaError::NoPendingUpgrade,
            malformed_state: None,
        };
        let mut slot = self.core.upgrade;
        let mut announced: Vec<UpgradeEvent> = Vec::new();
        match execute_upgrade(&mut slot, &mut announced, ledger.timestamp, &expected, errors,
            ExecuteTimePolicy::StrictlyAfter) {
            Err(e) => Err(e),
            Ok(hash) => {
                self.core.upgrade = slot;
                let mut effects = announce(&announced);
                effects.push(Effect::UpdateWasm { hash });
                assert(effects@ =~= seq![Effect::Emit(Event::UpgradeExecuted { hash }), Effect::UpdateWasm { hash }]);
                Ok(effects)
            },
        }
    }

    /// Withdraws the pending upgrade.
    pub fn cancel_upgrade(&mut self) -> (r: Result<Vec<Effect>, ArenaError>)
        requires
            old(self).wf(),
        ensures
            final(self).wf(),
            lifecycle_step(old(self).core.state, final(self).core.state),
            old(self).core.upgrade.pending_hash is None ==> r == Err::<Vec<Effect>, ArenaError>(
                ArenaError::NoPendingUpgrade) && *final(self) == *old(self),
            old(self).core.upgrade.pending_hash is Some ==> (r matches Ok(effects) && final(self).core == (ArenaCore {
                upgrade: UpgradeSlot { pending_hash: None, execute_after: None },
                ..old(self).core
            }) && final(self).players == old(self).players && final(self).history == old(self).history
                && final(self).metadata == old(self).metadata && effects@ == seq![Effect::Emit(Event::UpgradeCancelled)]),
    {
        let mut slot = self.core.upgrade;
        let mut announced: Vec<UpgradeEvent> = Vec::new();
        match cancel_upgrade(&mut slot, &mut announced, ArenaError::NoPendingUpgrade) {
            Err(e) => Err(e),
            Ok(()) => {
                self.core.upgrade = slot;
                Ok(announce(&announced))
            },
        }
    }

    /// The pending upgrade's hash and release time.
    pub fn pending_upgrade(&self) -> (r: Option<([u8; 32], u64)>)
        ensures
            r == pending_of(self.core.upgrade),
    {
        pending_upgrade(&self.core.upgrade)
    }
}

} // verus!
