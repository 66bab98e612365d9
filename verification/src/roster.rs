//! Joining and leaving, and the two ways an arena is called off (by its
//! administrator, or by anyone once the join deadline has passed unfilled).
use vstd::prelude::*;
use crate::addr::Addr;
use crate::admin::{
    capacity_of, set_state, state_change_effects,
};
use crate::bounds::MAX_ARENA_PARTICIPANTS;
use crate::events::{
    Effect, Event, PlayerJoined,
};
use crate::model::{
    lifecycle_step, lemma_history_kept, ArenaContract, ArenaCore, Ledger, PlayerRecord, count_where, distinct_addrs, find_player, fresh_record, has_survivor, is_survivor, lemma_count_all, lemma_count_bound, lemma_count_map, lemma_count_mono, lemma_count_push, lemma_count_remove, reveals_of,
};
use crate::types::{
    ArenaExpired, ArenaError, ArenaState,
};

verus! {

/// Why `join` refuses, in the order it checks.
pub open spec fn join_error(core: ArenaCore, players: Seq<PlayerRecord>, player: Addr, amount: i128) -> Option<
    ArenaError,
> {
    if core.paused {
        Some(ArenaError::Paused)
    } else if core.config is None {
        Some(ArenaError::NotInitialized)
    } else if amount != core.config.unwrap().required_stake_amount {
        Some(ArenaError::InvalidAmount)
    } else if has_survivor(players, player) {
        Some(ArenaError::AlreadyJoined)
    } else if core.survivor_count >= capacity_of(core) {
        Some(ArenaError::ArenaFull)
    } else if core.token is None {
        Some(ArenaError::TokenNotSet)
    } else {
        None
    }
}

/// Why `leave` refuses, in the order it checks.
pub open spec fn leave_error(core: ArenaCore, players: Seq<PlayerRecord>, player: Addr) -> Option<ArenaError> {
    if core.paused {
        Some(ArenaError::Paused)
    } else if core.round is None {
        Some(ArenaError::NotInitialized)
    } else if core.round.unwrap().round_number != 0 {
        Some(ArenaError::RoundAlreadyActive)
    } else if !has_survivor(players, player) {
        Some(ArenaError::NotASurvivor)
    } else if core.config is None {
        Some(ArenaError::NotInitialized)
    } else if core.token is None {
        Some(ArenaError::TokenNotSet)
    } else {
        None
    }
}

/// Why `cancel_arena` refuses, in the order it checks.
pub open spec fn cancel_error(core: ArenaCore, players: Seq<PlayerRecord>) -> Option<ArenaError> {
    if core.paused {
        Some(ArenaError::Paused)
    } else if core.cancelled {
        Some(ArenaError::AlreadyCancelled)
    } else if core.finished {
        Some(ArenaError::GameAlreadyFinished)
    } else if players.len() > 0 && core.config is None {
        Some(ArenaError::NotInitialized)
    } else if players.len() > 0 && core.token is None {
        Some(ArenaError::TokenNotSet)
    } else {
        None
    }
}

/// Why `expire_arena` refuses, in the order it checks.
pub open spec fn expire_error(core: ArenaCore, players: Seq<PlayerRecord>, now: u64) -> Option<ArenaError> {
    if core.config is None {
        Some(ArenaError::NotInitialized)
    } else if now <= core.config.unwrap().join_deadline {
        Some(ArenaError::DeadlineNotReached)
    } else if players.len() > 0 && core.token is None {
        Some(ArenaError::TokenNotSet)
    } else {
        None
    }
}

/// A successful `join` of `player` paying `amount`: the player is appended as a
/// survivor, the stake is collected twice and the entry is announced.
pub open spec fn joined(old: ArenaContract, new: ArenaContract, player: Addr, amount: i128, effects: Seq<Effect>) -> bool {
    &&& join_error(old.core, old.players@, player, amount) is None
    &&& new.players@ == old.players@.push(fresh_record(player))
    &&& new.core == (ArenaCore { survivor_count: (old.core.survivor_count + 1) as u32, ..old.core })
    &&& new.history == old.history
    &&& new.metadata == old.metadata
    &&& effects == seq![
        Effect::Collect { from: player, amount },
        Effect::Collect { from: player, amount },
        Effect::Emit(Event::PlayerJoined(PlayerJoined { arena_id: 0, player, entry_fee: amount })),
    ]
}

/// A successful `leave` of `player`: the record is removed, the stake is refunded
/// out of the pool.
pub open spec fn left(old: ArenaContract, new: ArenaContract, player: Addr, refund: i128, effects: Seq<Effect>) -> bool {
    let stake = old.core.config.unwrap().required_stake_amount;
    &&& leave_error(old.core, old.players@, player) is None
    &&& refund == stake
    &&& exists|i: int| 0 <= i < old.players@.len() && (#[trigger] old.players@[i]).addr == player
        && new.players@ == old.players@.remove(i)
    &&& new.core == (ArenaCore {
        survivor_count: (old.core.survivor_count - 1) as u32,
        prize_pool: (old.core.prize_pool - stake) as i128,
        ..old.core
    })
    &&& new.history == old.history
    &&& new.metadata == old.metadata
    &&& effects == seq![Effect::Pay { to: player, amount: stake }, Effect::Emit(Event::Left { player, refund: stake })]
}

/// A survivor who has not been refunded yet is owed the stake back.
pub open spec fn owed_refund(r: PlayerRecord) -> bool {
    r.survivor && !r.refunded
}

pub open spec fn is_owed_refund() -> spec_fn(PlayerRecord) -> bool {
    |r: PlayerRecord| owed_refund(r)
}

/// The record after its refund.
pub open spec fn after_refund(r: PlayerRecord) -> PlayerRecord {
    if owed_refund(r) {
        PlayerRecord { refunded: true, ..r }
    } else {
        r
    }
}

pub open spec fn refund_map() -> spec_fn(PlayerRecord) -> PlayerRecord {
    |r: PlayerRecord| after_refund(r)
}

/// The refunds of the records, in order.
pub open spec fn refund_payments(s: Seq<PlayerRecord>, amount: i128) -> Seq<Effect>
    decreases s.len(),
{
    if s.len() == 0 {
        seq![]
    } else {
        refund_payments(s.drop_last(), amount) + if owed_refund(s.last()) {
            seq![Effect::Pay { to: s.last().addr, amount }]
        } else {
            seq![]
        }
    }
}

/// The storage after the arena was called off.
pub open spec fn called_off(core: ArenaCore, players: Seq<PlayerRecord>) -> ArenaCore {
    ArenaCore {
        prize_pool: if players.len() > 0 { 0 } else { core.prize_pool },
        cancelled: true,
        finished: true,
        state: ArenaState::Cancelled,
        ..core
    }
}

/// Refunds every survivor not refunded yet; returns the new records and how many
/// were refunded.
fn refund_survivors(players: &Vec<PlayerRecord>, amount: i128, effects: &mut Vec<Effect>) -> (r: (
    Vec<PlayerRecord>,
    usize,
))
    ensures
        r.0@ == players@.map_values(refund_map()),
        r.1 == count_where(players@, is_owed_refund()),
        final(effects)@ == old(effects)@ + refund_payments(players@, amount),
{
    let mut out: Vec<PlayerRecord> = Vec::new();
    let mut n: usize = 0;
    let mut i: usize = 0;
    while i < players.len()
        invariant
            0 <= i <= players@.len(),
            out@ == players@.take(i as int).map_values(refund_map()),
            n == count_where(players@.take(i as int), is_owed_refund()),
            effects@ == old(effects)@ + refund_payments(players@.take(i as int), amount),
        decreases players@.len() - i,
    {
        let rec = players[i];
        proof {
            let t = players@.take(i + 1);
            assert(t.drop_last() =~= players@.take(i as int));
            assert(t.last() == rec);
            lemma_count_bound(players@.take(i as int), is_owed_refund());
        }
        if rec.survivor && !rec.refunded {
            out.push(PlayerRecord { refunded: true, ..rec });
            effects.push(Effect::Pay { to: rec.addr, amount });
            n = n + 1;
        } else {
            out.push(rec);
        }
        assert(out@ =~= players@.take(i + 1).map_values(refund_map()));
        assert(effects@ =~= old(effects)@ + refund_payments(players@.take(i + 1), amount));
        i = i + 1;
    }
    assert(players@.take(players@.len() as int) =~= players@);
    (out, n)
}

/// What a refund pass keeps of the invariant.
proof fn lemma_refund_keeps_wf(a: ArenaContract, b: ArenaContract)
    requires
        a.wf(),
        b.players@ == a.players@.map_values(refund_map()),
        b.core.round == a.core.round,
        b.core.config == a.core.config,
        b.core.survivor_count == a.core.survivor_count,
        b.core.upgrade == a.core.upgrade,
        b.core.state == ArenaState::Cancelled,
        a.core.state != ArenaState::Completed,
        b.history@ == a.history@,
    ensures
        b.wf(),
{
    let p = a.players@;
    let q = b.players@;
    lemma_count_map(p, refund_map(), is_survivor());
    assert forall|i: int| 0 <= i < q.len() implies (#[trigger] q[i]).addr == p[i].addr && q[i].survivor
        == p[i].survivor && q[i].eliminated == p[i].eliminated && q[i].commitment == p[i].commitment
        && q[i].revealed == p[i].revealed by {}
    lemma_history_kept(p, q, a.history@);
    if let Some(rs) = a.core.round {
        let n = rs.round_number;
        lemma_count_map(p, refund_map(), reveals_of(n));
    }
}

/// The outcome of calling `old` off: refused with `cancel_error`, or every survivor
/// owed a refund is paid the stake and the arena is cancelled.
pub open spec fn cancel_post(old: ArenaContract, new: ArenaContract, r: Result<Vec<Effect>, ArenaError>) -> bool {
    match r {
        Err(e) => cancel_error(old.core, old.players@) == Some(e) && new == old,
        Ok(effects) => {
            &&& cancel_error(old.core, old.players@) is None
            &&& new.players@ == old.players@.map_values(refund_map())
            &&& new.core == called_off(old.core, old.players@)
            &&& new.history == old.history
            &&& new.metadata == old.metadata
            &&& effects@ == refund_payments(old.players@, old.core.config.unwrap().required_stake_amount)
                + state_change_effects(old.core.state, ArenaState::Cancelled, old.core.factory, old.core.arena_id)
                + seq![Effect::Emit(Event::Cancelled)]
        },
    }
}

/// The outcome of expiring `old` in `ledger`: refused with `expire_error`, or every
/// survivor owed a refund is paid the stake and the arena is called off.
pub open spec fn expire_post(old: ArenaContract, new: ArenaContract, ledger: Ledger, r: Result<Vec<Effect>, ArenaError>) -> bool {
    match r {
        Err(e) => expire_error(old.core, old.players@, ledger.timestamp) == Some(e) && new == old,
        Ok(effects) => {
            let refunded = count_where(old.players@, is_owed_refund());
            &&& expire_error(old.core, old.players@, ledger.timestamp) is None
            &&& new.players@ == old.players@.map_values(refund_map())
            &&& new.core == called_off(old.core, old.players@)
            &&& new.history == old.history
            &&& new.metadata == old.metadata
            &&& effects@ == refund_payments(old.players@, old.core.config.unwrap().required_stake_amount)
                + state_change_effects(old.core.state, ArenaState::Cancelled, old.core.factory, old.core.arena_id)
                + seq![Effect::Emit(Event::Expired(ArenaExpired { arena_id: 0, refunded_players: refunded as u32 }))]
        },
    }
}

impl ArenaContract {
    /// `player` joins with `amount`, which must be the configured stake.
    pub fn join(&mut self, player: Addr, amount: i128) -> (r: Result<Vec<Effect>, ArenaError>)
        requires
            old(self).wf(),
            old(self).core.paused || old(self).core.state == ArenaState::Pending,
        ensures
            final(self).wf(),
            lifecycle_step(old(self).core.state, final(self).core.state),
            match r {
                Err(e) => join_error(old(self).core, old(self).players@, player, amount) == Some(e) && *final(self)
                    == *old(self),
                Ok(effects) => joined(*old(self), *final(self), player, amount, effects@),
            },
    {
        if self.core.paused {
            return Err(ArenaError::Paused);
        }
        let config = match self.core.config {
            Some(c) => c,
            None => return Err(ArenaError::NotInitialized),
        };
        if amount != config.required_stake_amount {
            return Err(ArenaError::InvalidAmount);
        }
        let found = find_player(&self.players, &player);
        let already = match found {
            Some(i) => self.players[i].survivor,
            None => false,
        };
        proof {
            let p = self.players@;
            if already {
                assert(p[found.unwrap() as int].addr == player);
            }
            if has_survivor(p, player) {
                let k = choose|k: int| 0 <= k < p.len() && (#[trigger] p[k]).addr == player && p[k].survivor;
                if found is None {
                    assert(p[k].addr != player);
                } else {
                    assert(k == found.unwrap() as int);
                }
            }
        }
        if already {
            return Err(ArenaError::AlreadyJoined);
        }
        let capacity = match self.core.capacity {
            Some(c) => c,
            None => MAX_ARENA_PARTICIPANTS,
        };
        let count = self.core.survivor_count;
        if count >= capacity {
            return Err(ArenaError::ArenaFull);
        }
        if self.core.token.is_none() {
            return Err(ArenaError::TokenNotSet);
        }
        proof {
            let p = self.players@;
            lemma_count_all(p, is_survivor());
            lemma_count_push(p, fresh_record(player), is_survivor());
            lemma_count_push(p, fresh_record(player), reveals_of(self.round_number()));
            assert forall|i: int| 0 <= i < p.len() implies (#[trigger] p[i]).addr != player by {
                assert(p[i].survivor);
            }
        }
        self.players.push(PlayerRecord {
            addr: player,
            survivor: true,
            eliminated: false,
            refunded: false,
            winner: false,
            claimed: None,
            commitment: None,
            revealed: None,
        });
        self.core.survivor_count = count + 1;
        proof {
            let p = self.players@;
            assert forall|i: int, j: int| 0 <= i < p.len() && 0 <= j < p.len() && i != j implies p[i].addr
                != p[j].addr by {
                if i < p.len() - 1 && j < p.len() - 1 {
                    assert(old(self).players@[i] == p[i] && old(self).players@[j] == p[j]);
                }
            }
            assert(distinct_addrs(p));
        }
        let mut effects: Vec<Effect> = Vec::new();
        effects.push(Effect::Collect { from: player, amount });
        effects.push(Effect::Collect { from: player, amount });
        effects.push(Effect::Emit(Event::PlayerJoined(PlayerJoined { arena_id: 0, player, entry_fee: amount })));
        assert(effects@ =~= seq![
            Effect::Collect { from: player, amount },
            Effect::Collect { from: player, amount },
            Effect::Emit(Event::PlayerJoined(PlayerJoined { arena_id: 0, player, entry_fee: amount })),
        ]);
        Ok(effects)
    }

    /// `player` leaves before the first round and gets the stake back.
    pub fn leave(&mut self, player: Addr) -> (r: Result<(i128, Vec<Effect>), ArenaError>)
        requires
            old(self).wf(),
            old(self).core.paused || old(self).core.state == ArenaState::Pending,
            leave_error(old(self).core, old(self).players@, player) is None ==> i128::MIN <= old(self).core.prize_pool
                - old(self).core.config.unwrap().required_stake_amount <= i128::MAX,
        ensures
            final(self).wf(),
            lifecycle_step(old(self).core.state, final(self).core.state),
            match r {
                Err(e) => leave_error(old(self).core, old(self).players@, player) == Some(e) && *final(self)
                    == *old(self),
                Ok((refund, effects)) => left(*old(self), *final(self), player, refund, effects@),
            },
    {
        if self.core.paused {
            return Err(ArenaError::Paused);
        }
        let round = match self.core.round {
            Some(rs) => rs,
            None => return Err(ArenaError::NotInitialized),
        };
        if round.round_number != 0 {
            return Err(ArenaError::RoundAlreadyActive);
        }
        let found = find_player(&self.players, &player);
        let idx = match found {
            Some(i) => {
                if self.players[i].survivor {
                    i
                } else {
                    proof {
                        let p = self.players@;
                        assert forall|k: int| 0 <= k < p.len() && (#[trigger] p[k]).addr == player implies !p[k].survivor by {
                            if k != i as int { assert(p[k].addr != p[i as int].addr); }
                        }
                    }
                    return Err(ArenaError::NotASurvivor);
                }
            },
            None => return Err(ArenaError::NotASurvivor),
        };
        let config = match self.core.config {
            Some(c) => c,
            None => return Err(ArenaError::NotInitialized),
        };
        let refund = config.required_stake_amount;
        if self.core.token.is_none() {
            return Err(ArenaError::TokenNotSet);
        }
        proof {
            let p = self.players@;
            assert(has_survivor(p, player));
            lemma_count_remove(p, idx as int, is_survivor());
            lemma_count_remove(p, idx as int, reveals_of(0));
        }
        self.players.remove(idx);
        self.core.survivor_count = self.core.survivor_count - 1;
        self.core.prize_pool = self.core.prize_pool - refund;
        proof {
            let p = self.players@;
            let o = old(self).players@;
            assert forall|i: int| 0 <= i < p.len() implies #[trigger] p[i] == o[if i < idx { i } else { i + 1 }] by {}
            assert forall|i: int, j: int| 0 <= i < p.len() && 0 <= j < p.len() && i != j implies p[i].addr
                != p[j].addr by {
                let oi = if i < idx { i } else { i + 1 };
                let oj = if j < idx { j } else { j + 1 };
                assert(p[i] == o[oi] && p[j] == o[oj]);
            }
            assert(distinct_addrs(p));
        }
        let mut effects: Vec<Effect> = Vec::new();
        effects.push(Effect::Pay { to: player, amount: refund });
        effects.push(Effect::Emit(Event::Left { player, refund }));
        assert(effects@ =~= seq![Effect::Pay { to: player, amount: refund }, Effect::Emit(Event::Left { player, refund })]);
        Ok((refund, effects))
    }

    /// The administrator calls the arena off: every survivor not yet refunded gets
    /// the stake back and the arena is cancelled.
    pub fn cancel_arena(&mut self) -> (r: Result<Vec<Effect>, ArenaError>)
        requires
            old(self).wf(),
        ensures
            final(self).wf(),
            lifecycle_step(old(self).core.state, final(self).core.state),
            cancel_post(*old(self), *final(self), r),
    {
        if self.core.paused {
            return Err(ArenaError::Paused);
        }
        if self.core.cancelled {
            return Err(ArenaError::AlreadyCancelled);
        }
        if self.core.finished {
            return Err(ArenaError::GameAlreadyFinished);
        }
        let mut effects: Vec<Effect> = Vec::new();
        let mut core = self.core;
        if self.players.len() > 0 {
            let config = match self.core.config {
                Some(c) => c,
                None => return Err(ArenaError::NotInitialized),
            };
            if self.core.token.is_none() {
                return Err(ArenaError::TokenNotSet);
            }
            let (refunded, _n) = refund_survivors(&self.players, config.required_stake_amount, &mut effects);
            self.players = refunded;
            core.prize_pool = 0;
        } else {
            assert(self.players@.map_values(refund_map()) =~= self.players@);
            assert(effects@ =~= refund_payments(self.players@, self.core.config.unwrap().required_stake_amount));
        }
        core.cancelled = true;
        core.finished = true;
        set_state(&mut core, ArenaState::Cancelled, &mut effects);
        effects.push(Effect::Emit(Event::Cancelled));
        self.core = core;
        proof {
            lemma_refund_keeps_wf(*old(self), *self);
        }
        assert(effects@ =~= refund_payments(old(self).players@, old(self).core.config.unwrap().required_stake_amount)
            + state_change_effects(old(self).core.state, ArenaState::Cancelled, old(self).core.factory,
            old(self).core.arena_id) + seq![Effect::Emit(Event::Cancelled)]);
        Ok(effects)
    }

    /// Anyone calls off a pending arena whose join deadline has passed: every
    /// survivor not yet refunded gets the stake back. Nothing about the caller
    /// enters: the outcome depends on the stored state and `ledger` alone.
    pub fn expire_arena(&mut self, ledger: Ledger) -> (r: Result<Vec<Effect>, ArenaError>)
        requires
            old(self).wf(),
            old(self).core.state == ArenaState::Pending,
        ensures
            final(self).wf(),
            lifecycle_step(old(self).core.state, final(self).core.state),
            expire_post(*old(self), *final(self), ledger, r),
    {
        let config = match self.core.config {
            Some(c) => c,
            None => return Err(ArenaError::NotInitialized),
        };
        if ledger.timestamp <= config.join_deadline {
            return Err(ArenaError::DeadlineNotReached);
        }
        let mut effects: Vec<Effect> = Vec::new();
        let mut core = self.core;
        let mut refunded_count: u32 = 0;
        if self.players.len() > 0 {
            if self.core.token.is_none() {
                return Err(ArenaError::TokenNotSet);
            }
            proof {
                lemma_count_mono(self.players@, is_owed_refund(), is_survivor());
            }
            let (refunded, n) = refund_survivors(&self.players, config.required_stake_amount, &mut effects);
            self.players = refunded;
            refunded_count = n as u32;
            core.prize_pool = 0;
        } else {
            assert(self.players@.map_values(refund_map()) =~= self.players@);
            assert(effects@ =~= refund_payments(self.players@, config.required_stake_amount));
            assert(count_where(self.players@, is_owed_refund()) == 0);
        }
        core.cancelled = true;
        core.finished = true;
        set_state(&mut core, ArenaState::Cancelled, &mut effects);
        effects.push(Effect::Emit(Event::Expired(ArenaExpired { arena_id: 0, refunded_players: refunded_count })));
        self.core = core;
        proof {
            lemma_refund_keeps_wf(*old(self), *self);
        }
        assert(effects@ =~= refund_payments(old(self).players@, old(self).core.config.unwrap().required_stake_amount)
            + state_change_effects(old(self).core.state, ArenaState::Cancelled, old(self).core.factory,
            old(self).core.arena_id) + seq![Effect::Emit(Event::Expired(ArenaExpired {
                arena_id: 0,
                refunded_players: refunded_count,
            }))]);
        Ok(effects)
    }
}

} // verus!
