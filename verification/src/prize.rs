//! The prize: the administrator's top-up for a survivor, and the winner's claim.
use vstd::prelude::*;
use crate::addr::Addr;
use crate::events::{
    Effect, Event,
};
use crate::model::{
    lifecycle_step, lemma_history_kept, ArenaContract, ArenaCore, PlayerRecord, find_player, has_survivor, is_survivor, lemma_count_update, reveals_of,
};
use crate::types::{
    ArenaError, ArenaState, RoundState,
};

verus! {

/// Why `set_winner` refuses, in the order it checks.
pub open spec fn set_winner_error(
    core: ArenaCore,
    players: Seq<PlayerRecord>,
    player: Addr,
    stake: i128,
    yield_comp: i128,
) -> Option<ArenaError> {
    if core.paused {
        Some(ArenaError::Paused)
    } else if !has_survivor(players, player) {
        Some(ArenaError::NotASurvivor)
    } else if core.winner_set {
        Some(ArenaError::WinnerAlreadySet)
    } else if stake < 0 || yield_comp < 0 {
        Some(ArenaError::InvalidAmount)
    } else if stake + yield_comp > i128::MAX {
        Some(ArenaError::InvalidAmount)
    } else if core.prize_pool + stake + yield_comp > i128::MAX {
        Some(ArenaError::InvalidAmount)
    } else {
        None
    }
}

/// Why `claim` refuses, in the order it checks.
pub open spec fn claim_error(core: ArenaCore, players: Seq<PlayerRecord>, winner: Addr) -> Option<ArenaError> {
    if core.paused {
        Some(ArenaError::Paused)
    } else if !has_survivor(players, winner) {
        Some(ArenaError::NotASurvivor)
    } else if core.prize_pool <= 0 {
        Some(ArenaError::NoPrizeToClaim)
    } else if exists|i: int| 0 <= i < players.len() && (#[trigger] players[i]).addr == winner
        && players[i].claimed is Some {
        Some(ArenaError::AlreadyClaimed)
    } else if core.round is None {
        Some(ArenaError::NotInitialized)
    } else if core.token is None {
        Some(ArenaError::TokenNotSet)
    } else {
        None
    }
}

/// A successful `claim` by `winner`: the whole pool is paid out and recorded, the
/// game is over.
pub open spec fn claimed(old: ArenaContract, new: ArenaContract, winner: Addr, prize: i128, effects: Seq<Effect>) -> bool {
    &&& claim_error(old.core, old.players@, winner) is None
    &&& prize == old.core.prize_pool
    &&& exists|i: int| 0 <= i < old.players@.len() && (#[trigger] old.players@[i]).addr == winner
        && new.players@ == old.players@.update(i, PlayerRecord { claimed: Some(prize), ..old.players@[i] })
    &&& new.core == (ArenaCore {
        prize_pool: 0,
        finished: true,
        round: Some(RoundState { finished: true, ..old.core.round.unwrap() }),
        ..old.core
    })
    &&& new.history == old.history
    &&& new.metadata == old.metadata
    &&& effects == seq![Effect::Pay { to: winner, amount: prize }, Effect::Emit(Event::Claimed { winner, prize })]
}

/// Flags of one record replaced, all else kept: what the two operations here do.
proof fn lemma_flag_update_keeps_wf(a: ArenaContract, b: ArenaContract, i: int, rec: PlayerRecord)
    requires
        a.wf(),
        0 <= i < a.players@.len(),
        b.players@ == a.players@.update(i, rec),
        rec.addr == a.players@[i].addr,
        rec.survivor == a.players@[i].survivor,
        rec.eliminated == a.players@[i].eliminated,
        rec.refunded == a.players@[i].refunded,
        rec.commitment == a.players@[i].commitment,
        rec.revealed == a.players@[i].revealed,
        b.core.round is Some <==> a.core.round is Some,
        b.core.round matches Some(rs) ==> rs.round_number == a.round_number() && rs.active == a.core.round.unwrap().active
            && rs.total_submissions == a.core.round.unwrap().total_submissions
            && rs.round_deadline_ledger == a.core.round.unwrap().round_deadline_ledger
            && (!rs.finished ==> !a.core.round.unwrap().finished),
        b.core.config == a.core.config,
        b.core.survivor_count == a.core.survivor_count,
        b.core.upgrade == a.core.upgrade,
        b.core.state == a.core.state,
        b.core.state == ArenaState::Completed ==> b.core.finished,
        b.core.round matches Some(rs) ==> (rs.active ==> !rs.finished),
        b.history@ == a.history@,
    ensures
        b.wf(),
{
    let p = a.players@;
    lemma_count_update(p, i, rec, is_survivor());
    lemma_count_update(p, i, rec, reveals_of(a.round_number()));
    let q = b.players@;
    assert forall|j: int| 0 <= j < q.len() implies (#[trigger] q[j]).addr == p[j].addr && q[j].survivor
        == p[j].survivor && q[j].eliminated == p[j].eliminated && q[j].refunded == p[j].refunded
        && q[j].commitment == p[j].commitment && q[j].revealed == p[j].revealed by {}
    assert(b.round_number() == a.round_number());
    lemma_history_kept(p, q, a.history@);
}

impl ArenaContract {
    /// The administrator names `player`, a survivor, as winner and adds `stake` and
    /// `yield_comp` to the prize pool.
    pub fn set_winner(&mut self, player: Addr, stake: i128, yield_comp: i128) -> (r: Result<Vec<Effect>, ArenaError>)
        requires
            old(self).wf(),
            old(self).core.paused || old(self).core.state == ArenaState::Active,
        ensures
            final(self).wf(),
            lifecycle_step(old(self).core.state, final(self).core.state),
            match r {
                Err(e) => set_winner_error(old(self).core, old(self).players@, player, stake, yield_comp) == Some(e)
                    && *final(self) == *old(self),
                Ok(effects) => {
                    &&& set_winner_error(old(self).core, old(self).players@, player, stake, yield_comp) is None
                    &&& exists|i: int| 0 <= i < old(self).players@.len() && (#[trigger] old(self).players@[i]).addr == player
                        && final(self).players@ == old(self).players@.update(i, PlayerRecord { winner: true, ..old(self).players@[i] })
                    &&& final(self).core == (ArenaCore {
                        prize_pool: (old(self).core.prize_pool + stake + yield_comp) as i128,
                        winner_set: true,
                        ..old(self).core
                    })
                    &&& final(self).history == old(self).history
                    &&& final(self).metadata == old(self).metadata
                    &&& effects@ == seq![Effect::Emit(Event::WinnerSet { player, stake, yield_comp })]
                },
            },
    {
        if self.core.paused {
            return Err(ArenaError::Paused);
        }
        let idx = match find_player(&self.players, &player) {
            Some(i) => i,
            None => return Err(ArenaError::NotASurvivor),
        };
        proof {
            let p = self.players@;
            assert forall|k: int| 0 <= k < p.len() && (#[trigger] p[k]).addr == player implies k == idx by {
                if k != idx as int { assert(p[k].addr != p[idx as int].addr); }
            }
        }
        if !self.players[idx].survivor {
            return Err(ArenaError::NotASurvivor);
        }
        if self.core.winner_set {
            return Err(ArenaError::WinnerAlreadySet);
        }
        if stake < 0 || yield_comp < 0 {
            return Err(ArenaError::InvalidAmount);
        }
        if stake > i128::MAX - yield_comp {
            return Err(ArenaError::InvalidAmount);
        }
        let prize = stake + yield_comp;
        let pool = self.core.prize_pool;
        if prize > 0 && pool > i128::MAX - prize {
            return Err(ArenaError::InvalidAmount);
        }
        let rec = self.players[idx];
        let new_rec = PlayerRecord { winner: true, ..rec };
        self.players.set(idx, new_rec);
        self.core.prize_pool = pool + prize;
        self.core.winner_set = true;
        proof {
            lemma_flag_update_keeps_wf(*old(self), *self, idx as int, new_rec);
        }
        let mut effects: Vec<Effect> = Vec::new();
        effects.push(Effect::Emit(Event::WinnerSet { player, stake, yield_comp }));
        assert(effects@ =~= seq![Effect::Emit(Event::WinnerSet { player, stake, yield_comp })]);
        Ok(effects)
    }

    /// A survivor of a completed arena takes the whole prize pool, once.
    pub fn claim(&mut self, winner: Addr) -> (r: Result<(i128, Vec<Effect>), ArenaError>)
        requires
            old(self).wf(),
            old(self).core.paused || old(self).core.state == ArenaState::Completed,
        ensures
            final(self).wf(),
            lifecycle_step(old(self).core.state, final(self).core.state),
            match r {
                Err(e) => claim_error(old(self).core, old(self).players@, winner) == Some(e) && *final(self) == *old(self),
                Ok((prize, effects)) => claimed(*old(self), *final(self), winner, prize, effects@),
            },
    {
        if self.core.paused {
            return Err(ArenaError::Paused);
        }
        let idx = match find_player(&self.players, &winner) {
            Some(i) => i,
            None => return Err(ArenaError::NotASurvivor),
        };
        proof {
            let p = self.players@;
            assert forall|k: int| 0 <= k < p.len() && (#[trigger] p[k]).addr == winner implies k == idx by {
                if k != idx as int { assert(p[k].addr != p[idx as int].addr); }
            }
        }
        if !self.players[idx].survivor {
            return Err(ArenaError::NotASurvivor);
        }
        let prize = self.core.prize_pool;
        if prize <= 0 {
            return Err(ArenaError::NoPrizeToClaim);
        }
        if self.players[idx].claimed.is_some() {
            return Err(ArenaError::AlreadyClaimed);
        }
        let round = match self.core.round {
            Some(rs) => rs,
            None => return Err(ArenaError::NotInitialized),
        };
        if self.core.token.is_none() {
            return Err(ArenaError::TokenNotSet);
        }
        let rec = self.players[idx];
        let new_rec = PlayerRecord { claimed: Some(prize), ..rec };
        self.players.set(idx, new_rec);
        self.core.prize_pool = 0;
        self.core.finished = true;
        self.core.round = Some(RoundState { finished: true, ..round });
        proof {
            lemma_flag_update_keeps_wf(*old(self), *self, idx as int, new_rec);
        }
        let mut effects: Vec<Effect> = Vec::new();
        effects.push(Effect::Pay { to: winner, amount: prize });
        effects.push(Effect::Emit(Event::Claimed { winner, prize }));
        assert(effects@ =~= seq![Effect::Pay { to: winner, amount: prize }, Effect::Emit(Event::Claimed { winner, prize })]);
        Ok((prize, effects))
    }
}

} // verus!
