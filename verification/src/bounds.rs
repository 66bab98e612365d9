//! The limits an arena is configured within. Their values are this library's
//! own settings.
use vstd::prelude::*;

verus! {

/// Fewest players a round can start with, and the lowest capacity.
pub const MIN_ARENA_PARTICIPANTS: u32 = 2;
/// The highest capacity, and the capacity of an arena that never set one.
pub const MAX_ARENA_PARTICIPANTS: u32 = 10_000;
/// The longest commit (and reveal) window, in ledgers.
pub const MAX_SPEED_LEDGERS: u32 = 17_280;
/// The smallest stake an arena may require.
pub const MIN_REQUIRED_STAKE: i128 = 10_000_000;
/// The round limit of a freshly configured arena.
pub const DEFAULT_MAX_ROUNDS: u32 = 10;
/// Bounds of a round limit set later.
pub const MIN_MAX_ROUNDS: u32 = 1;
pub const MAX_MAX_ROUNDS: u32 = 100;
/// The earliest a join deadline may fall after configuration, in seconds.
pub const MIN_JOIN_WINDOW_SECONDS: u64 = 3600;
/// The latest a join deadline may fall after configuration, in seconds.
pub const MAX_JOIN_WINDOW_SECONDS: u64 = 604800;
/// How long a proposed upgrade waits before it may run, in seconds.
pub const TIMELOCK_PERIOD: u64 = 172_800;
/// Longest arena name and description, in bytes.
pub const MAX_NAME_LEN: usize = 64;
pub const MAX_DESCRIPTION_LEN: usize = 256;

} // verus!
