use vstd::prelude::*;

verus! {

/// Every way in which an arena operation can be refused.
#[derive(Clone, Copy, Debug, PartialEq, Eq, Structural)]
pub enum ArenaError {
    AlreadyInitialized,
    InvalidRoundSpeed,
    RoundAlreadyActive,
    NoActiveRound,
    SubmissionWindowClosed,
    SubmissionAlreadyExists,
    RoundStillOpen,
    RoundDeadlineOverflow,
    NotInitialized,
    Paused,
    ArenaFull,
    AlreadyJoined,
    InvalidAmount,
    NoPrizeToClaim,
    AlreadyClaimed,
    ReentrancyGuard,
    NotASurvivor,
    GameAlreadyFinished,
    TokenNotSet,
    MaxSubmissionsPerRound,
    PlayerEliminated,
    WrongRoundNumber,
    NotEnoughPlayers,
    InvalidCapacity,
    NoPendingUpgrade,
    TimelockNotExpired,
    GameNotFinished,
    TokenConfigurationLocked,
    UpgradeAlreadyPending,
    WinnerAlreadySet,
    WinnerNotSet,
    AlreadyCancelled,
    InvalidMaxRounds,
    NameTooLong,
    NameEmpty,
    DescriptionTooLong,
    NoCommitment,
    CommitmentMismatch,
    RevealDeadlinePassed,
    CommitDeadlinePassed,
    AlreadyCommitted,
    DeadlineTooSoon,
    DeadlineTooFar,
    DeadlineNotReached,
}

/// A player's pick in a round.
#[derive(Clone, Copy, Debug, PartialEq, Eq, Structural)]
pub enum Choice {
    Heads,
    Tails,
}

/// The rules an arena was set up with.
#[derive(Clone, Copy, Debug, PartialEq, Eq, Structural)]
pub struct ArenaConfig {
    pub round_speed_in_ledgers: u32,
    pub round_duration_seconds: u64,
    pub required_stake_amount: i128,
    pub max_rounds: u32,
    pub join_deadline: u64,
}

/// The current (or last) round.
#[derive(Clone, Copy, Debug, PartialEq, Eq, Structural)]
pub struct RoundState {
    pub round_number: u32,
    pub round_start_ledger: u32,
    /// Last ledger on which commitments are accepted.
    pub round_deadline_ledger: u32,
    pub round_start: u64,
    pub round_deadline: u64,
    pub active: bool,
    pub total_submissions: u32,
    pub timed_out: bool,
    pub finished: bool,
}

/// A compact summary of the arena for clients.
#[derive(Clone, Copy, Debug, PartialEq, Eq, Structural)]
pub struct ArenaStateView {
    pub survivors_count: u32,
    pub max_capacity: u32,
    pub round_number: u32,
    pub current_stake: i128,
    pub potential_payout: i128,
}

/// What the arena knows of one player.
#[derive(Clone, Copy, Debug, PartialEq, Eq, Structural)]
pub struct UserStateView {
    pub is_active: bool,
    pub has_won: bool,
}

/// Arena summary and one player's standing together.
#[derive(Clone, Copy, Debug, PartialEq, Eq, Structural)]
pub struct FullStateView {
    pub survivors_count: u32,
    pub max_capacity: u32,
    pub round_number: u32,
    pub current_stake: i128,
    pub potential_payout: i128,
    pub is_active: bool,
    pub has_won: bool,
}

/// The lifecycle of an arena.
#[derive(Clone, Copy, Debug, PartialEq, Eq, Structural)]
pub enum ArenaState {
    Pending,
    Active,
    Completed,
    Cancelled,
}

impl ArenaState {
    /// A completed or cancelled arena never changes state again.
    pub open spec fn terminal(self) -> bool {
        self == ArenaState::Completed || self == ArenaState::Cancelled
    }

    pub fn is_terminal_state(&self) -> (r: bool)
        ensures
            r == self.terminal(),
    {
        match self {
            ArenaState::Completed | ArenaState::Cancelled => true,
            _ => false,
        }
    }
}

/// Payload of the state-change notification.
#[derive(Clone, Copy, Debug, PartialEq, Eq, Structural)]
pub struct ArenaStateChanged {
    pub old_state: ArenaState,
    pub new_state: ArenaState,
}

/// Payload of the expiry notification.
#[derive(Clone, Copy, Debug, PartialEq, Eq, Structural)]
pub struct ArenaExpired {
    pub arena_id: u64,
    pub refunded_players: u32,
}

} // verus!
