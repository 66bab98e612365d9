//! What an operation asks the host to do once it has decided: move tokens,
//! publish events, notify the factory, replace the contract code.
use vstd::prelude::*;
use crate::addr::Addr;
use crate::types::{ArenaExpired, ArenaState, ArenaStateChanged, Choice};

verus! {

/// A player entered the arena.
#[derive(Clone, Copy, Debug, PartialEq, Eq)]
pub struct PlayerJoined {
    pub arena_id: u64,
    pub player: Addr,
    pub entry_fee: i128,
}

/// A player revealed a choice.
#[derive(Clone, Copy, Debug, PartialEq, Eq)]
pub struct ChoiceSubmitted {
    pub arena_id: u64,
    pub round: u32,
    pub player: Addr,
}

/// A round was resolved.
#[derive(Debug, PartialEq, Eq)]
pub struct RoundResolved {
    pub arena_id: u64,
    pub round: u32,
    pub heads_count: u32,
    pub tails_count: u32,
    pub eliminated: Vec<Addr>,
}

/// A player lost a round.
#[derive(Clone, Copy, Debug, PartialEq, Eq)]
pub struct PlayerEliminated {
    pub arena_id: u64,
    pub round: u32,
    pub player: Addr,
    pub choice_made: Choice,
}

/// A single survivor remained.
#[derive(Clone, Copy, Debug, PartialEq, Eq)]
pub struct WinnerDeclared {
    pub arena_id: u64,
    pub winner: Addr,
    pub prize_pool: i128,
    pub yield_earned: i128,
    pub total_rounds: u32,
}

/// The events an arena publishes.
#[derive(Debug, PartialEq, Eq)]
pub enum Event {
    Paused,
    Unpaused,
    WinnerSet { player: Addr, stake: i128, yield_comp: i128 },
    PlayerJoined(PlayerJoined),
    Cancelled,
    Expired(ArenaExpired),
    Left { player: Addr, refund: i128 },
    RoundStarted { round_number: u32, start_ledger: u32, commit_deadline_ledger: u32, reveal_deadline_ledger: u32 },
    ChoiceSubmitted(ChoiceSubmitted),
    RoundTimedOut { round_number: u32, total_submissions: u32 },
    Claimed { winner: Addr, prize: i128 },
    StateChanged(ArenaStateChanged),
    PlayerEliminated(PlayerEliminated),
    WinnerDeclared(WinnerDeclared),
    RoundResolved(RoundResolved),
    UpgradeProposed { hash: [u8; 32], execute_after: u64 },
    UpgradeExecuted { hash: [u8; 32] },
    UpgradeCancelled,
}

/// One thing the host must do for an operation that succeeded, in order.
#[derive(Debug, PartialEq, Eq)]
pub enum Effect {
    /// Move `amount` of the arena token from `from` to the arena.
    Collect { from: Addr, amount: i128 },
    /// Move `amount` of the arena token from the arena to `to`.
    Pay { to: Addr, amount: i128 },
    Emit(Event),
    /// Tell the factory that the arena `arena_id` is now in `state`.
    NotifyFactory { factory: Addr, arena_id: u64, state: ArenaState },
    /// Replace the contract's code with the code of `hash`.
    UpdateWasm { hash: [u8; 32] },
}

} // verus!
