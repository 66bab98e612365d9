//! The arena's stored state as plain values, and the invariant every
//! operation keeps.
use vstd::prelude::*;
use crate::addr::{Addr, same_addr};
use crate::types::{ArenaConfig, ArenaState, Choice, RoundState};
use crate::upgrade::UpgradeSlot;

verus! {

/// A hash a player committed to in a round.
#[derive(Clone, Copy, Debug, PartialEq, Eq)]
pub struct Commitment {
    pub round: u32,
    pub digest: [u8; 32],
}

/// A choice a player revealed in a round.
#[derive(Clone, Copy, Debug, PartialEq, Eq, Structural)]
pub struct RoundChoice {
    pub round: u32,
    pub choice: Choice,
}

/// Everything stored about one player who joined, in joining order.
#[derive(Clone, Copy, Debug, PartialEq, Eq)]
pub struct PlayerRecord {
    pub addr: Addr,
    pub survivor: bool,
    pub eliminated: bool,
    pub refunded: bool,
    pub winner: bool,
    pub claimed: Option<i128>,
    /// The player's latest commitment.
    pub commitment: Option<Commitment>,
    /// The player's latest revealed choice.
    pub revealed: Option<RoundChoice>,
}

/// One revealed choice, kept for lookups of past rounds.
#[derive(Clone, Copy, Debug, PartialEq, Eq)]
pub struct ChoiceEntry {
    pub round: u32,
    pub player: Addr,
    pub choice: Choice,
}

/// The stored metadata of an arena.
#[derive(Debug, PartialEq, Eq)]
pub struct ArenaMetadata {
    pub arena_id: u64,
    pub name: Vec<u8>,
    pub description: Option<Vec<u8>>,
    pub host: Addr,
    pub created_at: u64,
}

/// The ledger an operation runs in.
#[derive(Clone, Copy, Debug, PartialEq, Eq)]
pub struct Ledger {
    pub timestamp: u64,
    pub sequence: u32,
}

/// The single-valued entries of the arena's storage.
#[derive(Clone, Copy, Debug, PartialEq, Eq)]
pub struct ArenaCore {
    pub admin: Option<Addr>,
    pub factory: Option<Addr>,
    pub arena_id: Option<u64>,
    pub config: Option<ArenaConfig>,
    pub round: Option<RoundState>,
    pub state: ArenaState,
    pub paused: bool,
    pub token: Option<Addr>,
    pub capacity: Option<u32>,
    pub prize_pool: i128,
    pub survivor_count: u32,
    pub cancelled: bool,
    pub finished: bool,
    pub winner_set: bool,
    pub yield_earned: i128,
    pub upgrade: UpgradeSlot,
}

/// The whole state of an arena contract.
pub struct ArenaContract {
    pub core: ArenaCore,
    /// The players who joined and did not leave, in joining order.
    pub players: Vec<PlayerRecord>,
    pub history: Vec<ChoiceEntry>,
    pub metadata: Vec<ArenaMetadata>,
}

/// How many records satisfy `p`.
pub open spec fn count_where(s: Seq<PlayerRecord>, p: spec_fn(PlayerRecord) -> bool) -> nat
    decreases s.len(),
{
    if s.len() == 0 {
        0
    } else {
        count_where(s.drop_last(), p) + (if p(s.last()) { 1nat } else { 0nat })
    }
}

pub open spec fn is_survivor() -> spec_fn(PlayerRecord) -> bool {
    |r: PlayerRecord| r.survivor
}

pub open spec fn is_eliminated() -> spec_fn(PlayerRecord) -> bool {
    |r: PlayerRecord| r.eliminated
}

/// The record holds a commitment for round `n`.
pub open spec fn committed_in(r: PlayerRecord, n: u32) -> bool {
    r.commitment matches Some(c) && c.round == n
}

/// The record holds a revealed choice for round `n`.
pub open spec fn revealed_in(r: PlayerRecord, n: u32) -> bool {
    r.revealed matches Some(c) && c.round == n
}

pub open spec fn reveals_of(n: u32) -> spec_fn(PlayerRecord) -> bool {
    |r: PlayerRecord| revealed_in(r, n)
}

pub open spec fn picked(n: u32, c: Choice) -> spec_fn(PlayerRecord) -> bool {
    |r: PlayerRecord| r.revealed == Some(RoundChoice { round: n, choice: c })
}

/// No address occurs twice.
pub open spec fn distinct_addrs(s: Seq<PlayerRecord>) -> bool {
    forall|i: int, j: int| 0 <= i < s.len() && 0 <= j < s.len() && i != j ==> s[i].addr != s[j].addr
}

/// The position of `a` among the records, if it is there.
pub open spec fn index_of(s: Seq<PlayerRecord>, a: Addr) -> Option<int> {
    if exists|i: int| 0 <= i < s.len() && s[i].addr == a {
        Some(choose|i: int| 0 <= i < s.len() && s[i].addr == a)
    } else {
        None
    }
}

/// `a` is a current survivor.
pub open spec fn has_survivor(s: Seq<PlayerRecord>, a: Addr) -> bool {
    exists|i: int| 0 <= i < s.len() && (#[trigger] s[i]).addr == a && s[i].survivor
}

/// The moves an arena's lifecycle may make in one operation: none; from pending to
/// active, completed or cancelled; from active to completed or cancelled; from
/// cancelled to completed (a late resolution) or back to pending (configuring an
/// arena that was called off before it was ever configured). A completed arena
/// never moves.
pub open spec fn lifecycle_step(a: ArenaState, b: ArenaState) -> bool {
    a == b || match (a, b) {
        (ArenaState::Pending, ArenaState::Active) => true,
        (ArenaState::Pending, ArenaState::Completed) => true,
        (ArenaState::Pending, ArenaState::Cancelled) => true,
        (ArenaState::Active, ArenaState::Completed) => true,
        (ArenaState::Active, ArenaState::Cancelled) => true,
        (ArenaState::Cancelled, ArenaState::Completed) => true,
        (ArenaState::Cancelled, ArenaState::Pending) => true,
        _ => false,
    }
}

/// The record of a player who has just joined.
pub open spec fn fresh_record(a: Addr) -> PlayerRecord {
    PlayerRecord {
        addr: a,
        survivor: true,
        eliminated: false,
        refunded: false,
        winner: false,
        claimed: None,
        commitment: None,
        revealed: None,
    }
}

/// The number of the current round (0 before configuration).
pub open spec fn round_no(core: ArenaCore) -> u32 {
    match core.round {
        Some(r) => r.round_number,
        None => 0,
    }
}

/// The invariant of the stored state.
pub open spec fn state_wf(core: ArenaCore, p: Seq<PlayerRecord>) -> bool {
    &&& core.round is Some <==> core.config is Some
    &&& core.config is None ==> p.len() == 0
    &&& core.upgrade.consistent()
    &&& p.len() <= u32::MAX
    &&& distinct_addrs(p)
    &&& core.survivor_count == count_where(p, is_survivor())
    &&& forall|i: int| 0 <= i < p.len() ==> !(#[trigger] p[i]).survivor || !p[i].eliminated
    &&& core.state == ArenaState::Pending ==> forall|i: int|
        0 <= i < p.len() ==> (#[trigger] p[i]).survivor && !p[i].refunded
    &&& forall|i: int| 0 <= i < p.len() ==> ((#[trigger] p[i]).commitment matches Some(c) ==>
        core.round is Some && 1 <= c.round <= round_no(core))
    &&& forall|i: int| 0 <= i < p.len() ==> ((#[trigger] p[i]).revealed matches Some(c) ==>
        core.round is Some && 1 <= c.round <= round_no(core))
    &&& core.state == ArenaState::Completed ==> core.finished
    &&& core.state == ArenaState::Active ==> core.round is Some
    &&& round_no(core) >= 1 ==> core.state != ArenaState::Pending
    &&& core.round matches Some(rs) ==> round_wf(core, p, rs)
    &&& core.state == ArenaState::Completed ==> (core.round matches Some(rs) && !rs.active)
}

/// What holds of the current round.
pub open spec fn round_wf(core: ArenaCore, p: Seq<PlayerRecord>, rs: RoundState) -> bool {
    let n = rs.round_number;
    &&& !rs.finished ==> rs.total_submissions == count_where(p, reveals_of(n))
    &&& rs.active ==> {
        &&& !rs.finished
        &&& n >= 1
        &&& core.config matches Some(c) && rs.round_deadline_ledger + c.round_speed_in_ledgers <= u32::MAX
        &&& forall|i: int| 0 <= i < p.len() ==> (revealed_in(#[trigger] p[i], n) ==> committed_in(p[i], n))
        &&& forall|i: int| 0 <= i < p.len() ==> (committed_in(#[trigger] p[i], n) ==> p[i].survivor)
    }
}

/// The player record `r` accounts for the revealed choice `e`: it is that
/// player's, and their latest reveal is in the entry's round or a later one,
/// with the same choice when in the same round.
pub open spec fn backs(r: PlayerRecord, e: ChoiceEntry) -> bool {
    &&& r.addr == e.player
    &&& r.revealed matches Some(rc) && e.round <= rc.round && (e.round == rc.round ==> e.choice == rc.choice)
}

/// Some record of `p` accounts for `e`.
pub open spec fn backed(p: Seq<PlayerRecord>, e: ChoiceEntry) -> bool {
    exists|k: int| 0 <= k < p.len() && #[trigger] backs(p[k], e)
}

/// The revealed choices on record: each belongs to a player and agrees with that
/// player's latest reveal, and a player has at most one per round.
pub open spec fn history_wf(p: Seq<PlayerRecord>, h: Seq<ChoiceEntry>) -> bool {
    &&& forall|i: int| 0 <= i < h.len() ==> backed(p, #[trigger] h[i])
    &&& forall|i: int, j: int| #![trigger h[i], h[j]] 0 <= i < j < h.len() ==> !(h[i].round == h[j].round && h[i].player
        == h[j].player)
}

/// The records `p1` keep, place by place, the addresses and latest reveals of `p0`
/// (and may hold more records after them).
pub open spec fn keeps_identities(p0: Seq<PlayerRecord>, p1: Seq<PlayerRecord>) -> bool {
    &&& p0.len() <= p1.len()
    &&& forall|k: int| 0 <= k < p0.len() ==> (#[trigger] p1[k]).addr == p0[k].addr && p1[k].revealed == p0[k].revealed
}

/// A record of `p0` that backs `e` is still there, with the same address and
/// reveal, in `p1`.
proof fn lemma_backed_kept(p0: Seq<PlayerRecord>, p1: Seq<PlayerRecord>, e: ChoiceEntry)
    requires
        backed(p0, e),
        keeps_identities(p0, p1),
    ensures
        backed(p1, e),
{
    let k = choose|k: int| 0 <= k < p0.len() && #[trigger] backs(p0[k], e);
    assert(p1[k].addr == p0[k].addr && p1[k].revealed == p0[k].revealed);
    assert(backs(p1[k], e));
}

/// `p1` is `p0` after some players were knocked out: the same players in the same
/// places with the same reveals, nobody back in, nobody's elimination undone.
pub open spec fn only_eliminates(p0: Seq<PlayerRecord>, p1: Seq<PlayerRecord>) -> bool {
    &&& p1.len() == p0.len()
    &&& forall|i: int| 0 <= i < p0.len() ==> {
        &&& (#[trigger] p1[i]).addr == p0[i].addr
        &&& p1[i].revealed == p0[i].revealed
        &&& p1[i].survivor ==> p0[i].survivor
        &&& p0[i].eliminated ==> p1[i].eliminated
    }
}

/// The record of reveals stays valid while players keep their addresses and reveals.
pub proof fn lemma_history_kept(p0: Seq<PlayerRecord>, p1: Seq<PlayerRecord>, h: Seq<ChoiceEntry>)
    requires
        history_wf(p0, h),
        keeps_identities(p0, p1),
    ensures
        history_wf(p1, h),
{
    assert forall|i: int| 0 <= i < h.len() implies backed(p1, #[trigger] h[i]) by {
        lemma_backed_kept(p0, p1, h[i]);
    }
}

/// Knocking players out keeps the record of reveals valid.
pub proof fn lemma_history_after_elimination(p0: Seq<PlayerRecord>, p1: Seq<PlayerRecord>, h: Seq<ChoiceEntry>)
    requires
        history_wf(p0, h),
        only_eliminates(p0, p1),
    ensures
        history_wf(p1, h),
{
    assert forall|k: int| 0 <= k < p0.len() implies (#[trigger] p1[k]).addr == p0[k].addr && p1[k].revealed
        == p0[k].revealed by {}
    lemma_history_kept(p0, p1, h);
}

impl ArenaContract {
    pub open spec fn round_number(self) -> u32 {
        round_no(self.core)
    }

    /// The invariant of the stored state.
    pub open spec fn wf(self) -> bool {
        &&& state_wf(self.core, self.players@)
        &&& history_wf(self.players@, self.history@)
    }
}

// ── Counting lemmas ──────────────────────────────────────────────────────────

pub proof fn lemma_count_bound(s: Seq<PlayerRecord>, p: spec_fn(PlayerRecord) -> bool)
    ensures
        count_where(s, p) <= s.len(),
    decreases s.len(),
{
    if s.len() > 0 {
        lemma_count_bound(s.drop_last(), p);
    }
}

pub proof fn lemma_count_push(s: Seq<PlayerRecord>, r: PlayerRecord, p: spec_fn(PlayerRecord) -> bool)
    ensures
        count_where(s.push(r), p) == count_where(s, p) + (if p(r) { 1nat } else { 0nat }),
{
    assert(s.push(r).drop_last() =~= s);
}

/// Replacing one record changes the count by the difference at that place.
pub proof fn lemma_count_update(s: Seq<PlayerRecord>, i: int, r: PlayerRecord, p: spec_fn(PlayerRecord) -> bool)
    requires
        0 <= i < s.len(),
    ensures
        count_where(s.update(i, r), p) + (if p(s[i]) { 1nat } else { 0nat })
            == count_where(s, p) + (if p(r) { 1nat } else { 0nat }),
    decreases s.len(),
{
    if i == s.len() - 1 {
        assert(s.update(i, r).drop_last() =~= s.drop_last());
    } else {
        lemma_count_update(s.drop_last(), i, r, p);
        assert(s.update(i, r).drop_last() =~= s.drop_last().update(i, r));
    }
}

/// Removing one record lowers the count by what that record counted.
pub proof fn lemma_count_remove(s: Seq<PlayerRecord>, i: int, p: spec_fn(PlayerRecord) -> bool)
    requires
        0 <= i < s.len(),
    ensures
        count_where(s.remove(i), p) + (if p(s[i]) { 1nat } else { 0nat }) == count_where(s, p),
    decreases s.len(),
{
    if i == s.len() - 1 {
        assert(s.remove(i) =~= s.drop_last());
    } else {
        lemma_count_remove(s.drop_last(), i, p);
        assert(s.remove(i).drop_last() =~= s.drop_last().remove(i));
    }
}

/// A predicate implied by another counts at least as many records.
pub proof fn lemma_count_mono(s: Seq<PlayerRecord>, p: spec_fn(PlayerRecord) -> bool, q: spec_fn(PlayerRecord) -> bool)
    requires
        forall|i: int| 0 <= i < s.len() ==> (p(#[trigger] s[i]) ==> q(s[i])),
    ensures
        count_where(s, p) <= count_where(s, q),
    decreases s.len(),
{
    if s.len() > 0 {
        assert forall|i: int| 0 <= i < s.drop_last().len() && p(#[trigger] s.drop_last()[i]) implies q(
            s.drop_last()[i],
        ) by {
            assert(s.drop_last()[i] == s[i]);
        }
        lemma_count_mono(s.drop_last(), p, q);
        assert(s.last() == s[s.len() - 1]);
    }
}

/// ... and strictly more when some record satisfies only the weaker one.
pub proof fn lemma_count_strict(
    s: Seq<PlayerRecord>,
    p: spec_fn(PlayerRecord) -> bool,
    q: spec_fn(PlayerRecord) -> bool,
    k: int,
)
    requires
        forall|i: int| 0 <= i < s.len() ==> (p(#[trigger] s[i]) ==> q(s[i])),
        0 <= k < s.len(),
        q(s[k]),
        !p(s[k]),
    ensures
        count_where(s, p) < count_where(s, q),
    decreases s.len(),
{
    let d = s.drop_last();
    assert forall|i: int| 0 <= i < d.len() && p(#[trigger] d[i]) implies q(d[i]) by {
        assert(d[i] == s[i]);
    }
    if k == s.len() - 1 {
        lemma_count_mono(d, p, q);
    } else {
        assert(d[k] == s[k]);
        lemma_count_strict(d, p, q, k);
        assert(s.last() == s[s.len() - 1]);
    }
}

/// Counts of pointwise-equivalent predicates agree.
pub proof fn lemma_count_ext(s: Seq<PlayerRecord>, p: spec_fn(PlayerRecord) -> bool, q: spec_fn(PlayerRecord) -> bool)
    requires
        forall|i: int| 0 <= i < s.len() ==> (p(#[trigger] s[i]) == q(s[i])),
    ensures
        count_where(s, p) == count_where(s, q),
{
    lemma_count_mono(s, p, q);
    lemma_count_mono(s, q, p);
}

/// Counts over a prefix grow by one record at a time.
pub proof fn lemma_count_take(s: Seq<PlayerRecord>, i: int, p: spec_fn(PlayerRecord) -> bool)
    requires
        0 <= i < s.len(),
    ensures
        count_where(s.take(i + 1), p) == count_where(s.take(i), p) + (if p(s[i]) { 1nat } else { 0nat }),
{
    assert(s.take(i + 1).drop_last() =~= s.take(i));
}

/// No record satisfies `p`.
pub proof fn lemma_count_none(s: Seq<PlayerRecord>, p: spec_fn(PlayerRecord) -> bool)
    requires
        forall|i: int| 0 <= i < s.len() ==> !p(#[trigger] s[i]),
    ensures
        count_where(s, p) == 0,
    decreases s.len(),
{
    if s.len() > 0 {
        let d = s.drop_last();
        assert forall|i: int| 0 <= i < d.len() implies !p(#[trigger] d[i]) by {
            assert(d[i] == s[i]);
        }
        lemma_count_none(d, p);
        assert(s.last() == s[s.len() - 1]);
    }
}

/// A prefix counts no more than the whole.
pub proof fn lemma_count_prefix(s: Seq<PlayerRecord>, i: int, p: spec_fn(PlayerRecord) -> bool)
    requires
        0 <= i <= s.len(),
    ensures
        count_where(s.take(i), p) <= count_where(s, p),
    decreases s.len() - i,
{
    if i < s.len() {
        lemma_count_take(s, i, p);
        lemma_count_prefix(s, i + 1, p);
    } else {
        assert(s.take(i) =~= s);
    }
}

/// A record count of two disjoint predicates is at most the number of records.
pub proof fn lemma_count_disjoint(s: Seq<PlayerRecord>, p: spec_fn(PlayerRecord) -> bool, q: spec_fn(PlayerRecord) -> bool)
    requires
        forall|i: int| 0 <= i < s.len() ==> !(p(#[trigger] s[i]) && q(s[i])),
    ensures
        count_where(s, p) + count_where(s, q) <= s.len(),
    decreases s.len(),
{
    if s.len() > 0 {
        let d = s.drop_last();
        assert forall|i: int| 0 <= i < d.len() implies !(p(#[trigger] d[i]) && q(d[i])) by {
            assert(d[i] == s[i]);
        }
        lemma_count_disjoint(d, p, q);
        assert(s.last() == s[s.len() - 1]);
    }
}

/// When every record satisfies `p`, all of them count.
pub proof fn lemma_count_all(s: Seq<PlayerRecord>, p: spec_fn(PlayerRecord) -> bool)
    requires
        forall|i: int| 0 <= i < s.len() ==> p(#[trigger] s[i]),
    ensures
        count_where(s, p) == s.len(),
    decreases s.len(),
{
    if s.len() > 0 {
        let d = s.drop_last();
        assert forall|i: int| 0 <= i < d.len() implies p(#[trigger] d[i]) by {
            assert(d[i] == s[i]);
        }
        lemma_count_all(d, p);
        assert(s.last() == s[s.len() - 1]);
    }
}

/// A map that keeps `p` keeps the count of `p`.
pub proof fn lemma_count_map(
    s: Seq<PlayerRecord>,
    f: spec_fn(PlayerRecord) -> PlayerRecord,
    p: spec_fn(PlayerRecord) -> bool,
)
    requires
        forall|r: PlayerRecord| p(#[trigger] f(r)) == p(r),
    ensures
        count_where(s.map_values(f), p) == count_where(s, p),
    decreases s.len(),
{
    if s.len() > 0 {
        lemma_count_map(s.drop_last(), f, p);
        assert(s.map_values(f).drop_last() =~= s.drop_last().map_values(f));
        assert(s.map_values(f).last() == f(s.last()));
    }
}

// ── Lookups ─────────────────────────────────────────────────────────────────

/// Finds the record of `a`.
pub fn find_player(players: &Vec<PlayerRecord>, a: &Addr) -> (r: Option<usize>)
    ensures
        match r {
            Some(i) => i < players@.len() && players@[i as int].addr == *a,
            None => forall|j: int| 0 <= j < players@.len() ==> (#[trigger] players@[j]).addr != *a,
        },
{
    let mut i: usize = 0;
    while i < players.len()
        invariant
            0 <= i <= players@.len(),
            forall|j: int| 0 <= j < i ==> (#[trigger] players@[j]).addr != *a,
        decreases players@.len() - i,
    {
        if same_addr(&players[i].addr, a) {
            return Some(i);
        }
        i = i + 1;
    }
    None
}

/// A copy of the records.
pub fn copy_players(players: &Vec<PlayerRecord>) -> (r: Vec<PlayerRecord>)
    ensures
        r@ == players@,
{
    let mut r: Vec<PlayerRecord> = Vec::new();
    let mut i: usize = 0;
    while i < players.len()
        invariant
            0 <= i <= players@.len(),
            r@ == players@.take(i as int),
        decreases players@.len() - i,
    {
        r.push(players[i]);
        assert(players@.take(i + 1) =~= players@.take(i as int).push(players@[i as int]));
        i = i + 1;
    }
    assert(players@.take(players@.len() as int) =~= players@);
    r
}

} // verus!
