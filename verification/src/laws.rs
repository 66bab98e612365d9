//! Properties of the arena that span operations, proved from their contracts.
use vstd::prelude::*;
use crate::addr::{Addr, addr_xdr, lemma_addr_xdr_injective};
use crate::crypto::{choice_byte, commitment_preimage};
use crate::events::Effect;
use crate::admin::{
    state_change_effects, configured_core, first_metadata_at, metadata_written, no_metadata,
};
use crate::bounds::DEFAULT_MAX_ROUNDS;
use crate::model::{
    ChoiceEntry, only_eliminates, round_no,
};
use crate::queries::{lemma_survivor_addrs_len, recorded_choice};
use crate::resolution::{
    lemma_losers_le, lemma_resolution_wf, limit_outcome, max_rounds_reached, survivor_addrs, winner_at,
};
use crate::rounds::{
    lemma_history_after_reveal, resolves_to,
};
use crate::model::{
    ArenaContract, ArenaCore, ArenaMetadata, Ledger, PlayerRecord, RoundChoice, count_where, fresh_record, index_of, is_survivor, lifecycle_step, reveals_of, state_wf,
};
use crate::prize::{
    claim_error, claimed, set_winner_error,
};
use crate::resolution::{
    after_round, pay_each, round_map, round_outcome, round_side, split_payments, surviving_side,
};
use crate::roster::{
    cancel_post, expire_post, after_refund, cancel_error, is_owed_refund, join_error, joined, leave_error, left, owed_refund, refund_map, refund_payments,
};
use crate::rounds::{
    commit_error, resolve_round_error, reveal_error, reveal_post, start_error, timeout_error,
};
use crate::types::{
    ArenaError, ArenaState, Choice, RoundState,
};
use crate::upgrade::{
    ExecuteTimePolicy, UpgradeErrors, cleared, execute_result, pending_of, proposed, timelock_open,
};

verus! {

/// The total of the payments among `e`.
pub open spec fn total_paid(e: Seq<Effect>) -> int
    decreases e.len(),
{
    if e.len() == 0 {
        0
    } else {
        total_paid(e.drop_last()) + match e.last() {
            Effect::Pay { to: _, amount } => amount as int,
            _ => 0,
        }
    }
}

proof fn lemma_total_paid_concat(a: Seq<Effect>, b: Seq<Effect>)
    ensures
        total_paid(a + b) == total_paid(a) + total_paid(b),
    decreases b.len(),
{
    if b.len() == 0 {
        assert(a + b =~= a);
    } else {
        lemma_total_paid_concat(a, b.drop_last());
        assert((a + b).drop_last() =~= a + b.drop_last());
    }
}

proof fn lemma_total_paid_single(x: Effect)
    ensures
        total_paid(seq![x]) == match x {
            Effect::Pay { to: _, amount } => amount as int,
            _ => 0,
        },
{
    assert(total_paid(Seq::<Effect>::empty()) == 0);
    assert(seq![x].drop_last() =~= Seq::<Effect>::empty());
    assert(seq![x].last() == x);
}

proof fn lemma_total_paid_equal(addrs: Seq<Addr>, share: i128)
    ensures
        total_paid(addrs.map_values(pay_each(share))) == addrs.len() * share,
    decreases addrs.len(),
{
    if addrs.len() > 0 {
        let f = pay_each(share);
        lemma_total_paid_equal(addrs.drop_last(), share);
        assert(addrs.map_values(f).drop_last() =~= addrs.drop_last().map_values(f));
        let m = addrs.map_values(f);
        assert(m.last() == Effect::Pay { to: addrs.last(), amount: share });
        assert(total_paid(m) == total_paid(m.drop_last()) + share);
        assert(total_paid(m.drop_last()) == (addrs.len() - 1) * share);
        let k = addrs.len() as int;
        assert(k * share == (k - 1) * share + share) by (nonlinear_arith);
    } else {
        let k = addrs.len() as int;
        assert(k * share == 0) by (nonlinear_arith)
            requires
                k == 0,
        ;
    }
}

/// A split pays out exactly the pool: everyone gets the same share and the first
/// also the remainder.
pub proof fn law_split_pays_the_pool(addrs: Seq<Addr>, pool: i128)
    requires
        addrs.len() > 0,
        pool > 0,
    ensures
        total_paid(split_payments(addrs, pool)) == pool,
{
    let k = addrs.len() as int;
    let q = (pool as int) / k;
    let m = (pool as int) % k;
    vstd::arithmetic::div_mod::lemma_fundamental_div_mod(pool as int, k);
    assert(0 <= q <= pool) by (nonlinear_arith)
        requires
            q == (pool as int) / k,
            k > 0,
            pool > 0,
    {
        vstd::arithmetic::div_mod::lemma_div_pos_is_pos(pool as int, k);
        vstd::arithmetic::div_mod::lemma_div_is_ordered_by_denominator(pool as int, 1, k);
    }
    let share = q as i128;
    let dust = m as i128;
    lemma_total_paid_equal(addrs, share);
    let pays = addrs.map_values(pay_each(share));
    let tail = if dust > 0 { seq![Effect::Pay { to: addrs[0], amount: dust }] } else { seq![] };
    lemma_total_paid_concat(pays, tail);
    assert(split_payments(addrs, pool) == pays + tail);
    if dust > 0 {
        lemma_total_paid_single(Effect::Pay { to: addrs[0], amount: dust });
    } else {
        assert(total_paid(tail) == 0);
    }
    assert(k * q == addrs.len() * share);
}

/// Refunds are paid once: after a refund pass nobody is owed anything.
pub proof fn law_refunds_paid_once(s: Seq<PlayerRecord>, amount: i128)
    ensures
        refund_payments(s.map_values(refund_map()), amount) == Seq::<Effect>::empty(),
    decreases s.len(),
{
    if s.len() > 0 {
        law_refunds_paid_once(s.drop_last(), amount);
        assert(s.map_values(refund_map()).drop_last() =~= s.drop_last().map_values(refund_map()));
        assert(!owed_refund(after_refund(s.last())));
    }
}

/// A refund pass pays every player owed a refund the amount, and nobody else.
pub proof fn law_refunds_pay_each_stake(s: Seq<PlayerRecord>, amount: i128)
    ensures
        total_paid(refund_payments(s, amount)) == count_where(s, is_owed_refund()) * amount,
    decreases s.len(),
{
    if s.len() > 0 {
        law_refunds_pay_each_stake(s.drop_last(), amount);
        let tail = if owed_refund(s.last()) { seq![Effect::Pay { to: s.last().addr, amount }] } else { seq![] };
        lemma_total_paid_concat(refund_payments(s.drop_last(), amount), tail);
        if owed_refund(s.last()) {
            lemma_total_paid_single(Effect::Pay { to: s.last().addr, amount });
        } else {
            assert(total_paid(tail) == 0);
        }
        assert(refund_payments(s, amount) == refund_payments(s.drop_last(), amount) + tail);
        let c = count_where(s.drop_last(), is_owed_refund());
        assert((c + 1) * amount == c * amount + amount) by (nonlinear_arith);
    } else {
        let c = count_where(s, is_owed_refund());
        assert(c == 0);
        assert(c * amount == 0) by (nonlinear_arith)
            requires
                c == 0,
        ;
    }
}

/// Leaving undoes joining: the roster and the survivor count are as before; the
/// pool alone is lower by the stake.
pub proof fn law_leave_undoes_join(
    s0: ArenaContract,
    s1: ArenaContract,
    s2: ArenaContract,
    player: Addr,
    amount: i128,
    refund: i128,
    e1: Seq<Effect>,
    e2: Seq<Effect>,
)
    requires
        s0.wf(),
        s1.wf(),
        joined(s0, s1, player, amount, e1),
        left(s1, s2, player, refund, e2),
    ensures
        s2.players@ == s0.players@,
        s2.core.survivor_count == s0.core.survivor_count,
        s2.core.prize_pool == (s0.core.prize_pool - refund) as i128,
        refund == amount,
{
    let p1 = s1.players@;
    let last = p1.len() - 1;
    let i = choose|i: int| 0 <= i < p1.len() && (#[trigger] p1[i]).addr == player && s2.players@ == p1.remove(i);
    assert(p1[last] == fresh_record(player));
    if i != last {
        assert(p1[i].addr != p1[last].addr);
    }
    assert(p1.remove(last) =~= s0.players@);
}

/// A prize is claimed once: right after a claim, another claim is refused.
pub proof fn law_claim_once(s0: ArenaContract, s1: ArenaContract, winner: Addr, prize: i128, e: Seq<Effect>, other: Addr)
    requires
        claimed(s0, s1, winner, prize, e),
    ensures
        claim_error(s1.core, s1.players@, other) is Some,
{
}

/// A reveal is accepted only against the stored commitment: the player had
/// committed, in this round, to exactly the digest of the reveal.
pub proof fn law_reveal_matches_commitment(
    old: ArenaContract,
    new: ArenaContract,
    effects: Vec<Effect>,
    ledger: Ledger,
    player: Addr,
    round_number: u32,
    choice: Choice,
    digest: [u8; 32],
    coin: bool,
)
    requires
        reveal_post(old, new, Ok(effects), ledger, player, round_number, choice, digest, coin),
    ensures
        index_of(old.players@, player) matches Some(i) && (old.players@[i].addr == player
            && (old.players@[i].commitment matches Some(c) && c.round == round_number && c.digest == digest)),
{
    let p = old.players@;
    let i = index_of(p, player).unwrap();
    assert(exists|k: int| 0 <= k < p.len() && p[k].addr == player);
}

/// The smaller side survives; the coin decides only a tie, and nobody survives a
/// round in which nobody revealed.
pub proof fn law_minority_survives(heads: nat, tails: nat, coin: bool)
    ensures
        0 < heads < tails ==> surviving_side(heads, tails, coin) == Some(Choice::Heads),
        0 < tails < heads ==> surviving_side(heads, tails, coin) == Some(Choice::Tails),
        heads == 0 && tails > 0 ==> surviving_side(heads, tails, coin) == Some(Choice::Tails),
        tails == 0 && heads > 0 ==> surviving_side(heads, tails, coin) == Some(Choice::Heads),
        heads == 0 && tails == 0 ==> surviving_side(heads, tails, coin) is None,
        heads == tails ==> surviving_side(heads, tails, coin) == surviving_side(tails, heads, coin),
{
}

/// After a round, everyone still standing revealed the surviving side in it.
pub proof fn law_survivors_picked_the_side(s: Seq<PlayerRecord>, n: u32, side: Option<Choice>, i: int)
    requires
        0 <= i < s.len(),
        s.map_values(round_map(n, side))[i].survivor,
    ensures
        side matches Some(c) && s[i].revealed == Some(RoundChoice { round: n, choice: c }),
{
    assert(s.map_values(round_map(n, side))[i] == after_round(s[i], n, side));
}

/// While a round is open, no more choices are revealed than there are survivors.
pub proof fn law_submissions_within_survivors(a: ArenaContract)
    requires
        a.wf(),
        a.core.round matches Some(rs) && rs.active,
    ensures
        a.core.round.unwrap().total_submissions <= a.core.survivor_count,
{
    let p = a.players@;
    let rs = a.core.round.unwrap();
    let n = rs.round_number;
    assert forall|i: int| 0 <= i < p.len() && #[trigger] reveals_of(n)(p[i]) implies is_survivor()(p[i]) by {}
    crate::model::lemma_count_mono(p, reveals_of(n), is_survivor());
}

/// A completed arena stays completed; an arena that went active never returns to
/// pending.
pub proof fn law_lifecycle(a: ArenaState, b: ArenaState)
    requires
        lifecycle_step(a, b),
    ensures
        a == ArenaState::Completed ==> b == ArenaState::Completed,
        a == ArenaState::Active ==> b != ArenaState::Pending,
{
}

/// While paused, every guarded operation is refused with `Paused`.
pub proof fn law_pause_blocks(
    core: ArenaCore,
    players: Seq<PlayerRecord>,
    player: Addr,
    amount: i128,
    round_number: u32,
    digest: [u8; 32],
    ledger: Ledger,
)
    requires
        core.paused,
    ensures
        join_error(core, players, player, amount) == Some(ArenaError::Paused),
        leave_error(core, players, player) == Some(ArenaError::Paused),
        cancel_error(core, players) == Some(ArenaError::Paused),
        set_winner_error(core, players, player, amount, amount) == Some(ArenaError::Paused),
        claim_error(core, players, player) == Some(ArenaError::Paused),
        start_error(core, ledger) == Some(ArenaError::Paused),
        commit_error(core, players, player, round_number, ledger) == Some(ArenaError::Paused),
        reveal_error(core, players, player, round_number, digest, ledger) == Some(ArenaError::Paused),
        timeout_error(core, ledger) == Some(ArenaError::Paused),
        resolve_round_error(core, ledger) == Some(ArenaError::Paused),
{
}

/// A proposed upgrade waits for its timelock: executing it earlier is refused and
/// changes nothing; afterwards the proposed code runs and the proposal is gone.
pub proof fn law_upgrade_waits<E>(
    now: u64,
    period: u64,
    hash: [u8; 32],
    t: u64,
    errors: UpgradeErrors<E>,
    policy: ExecuteTimePolicy,
)
    requires
        now + period <= u64::MAX,
    ensures
        pending_of(proposed(now, period, hash)) == Some((hash, (now + period) as u64)),
        !timelock_open(policy, t, (now + period) as u64) ==> execute_result(proposed(now, period, hash), t, hash,
            errors, policy) == Err::<[u8; 32], E>(errors.timelock_not_expired),
        timelock_open(policy, t, (now + period) as u64) ==> execute_result(proposed(now, period, hash), t, hash,
            errors, policy) == Ok::<[u8; 32], E>(hash) && pending_of(cleared()) is None,
        t >= now + period + 1 ==> timelock_open(policy, t, (now + period) as u64),
{
}

/// Some record of `arena_id` at or before `j` is the first one of that id.
proof fn lemma_first_metadata_exists(m: Seq<ArenaMetadata>, arena_id: u64, j: int)
    requires
        0 <= j < m.len(),
        m[j].arena_id == arena_id,
    ensures
        exists|i: int| first_metadata_at(m, arena_id, i),
    decreases j,
{
    if forall|k: int| 0 <= k < j ==> (#[trigger] m[k]).arena_id != arena_id {
        assert(first_metadata_at(m, arena_id, j));
    } else {
        let k = choose|k: int| 0 <= k < j && (#[trigger] m[k]).arena_id == arena_id;
        lemma_first_metadata_exists(m, arena_id, k);
    }
}

/// Two metadata lists that agree on which records belong to `other` find the
/// same record for it.
proof fn lemma_same_lookup(before: Seq<ArenaMetadata>, after: Seq<ArenaMetadata>, other: u64, j: int)
    requires
        before.len() <= after.len(),
        forall|x: int| 0 <= x < before.len() ==> ((#[trigger] after[x]).arena_id == other <==> before[x].arena_id
            == other),
        forall|x: int| before.len() <= x < after.len() ==> (#[trigger] after[x]).arena_id != other,
    ensures
        first_metadata_at(after, other, j) <==> first_metadata_at(before, other, j),
        no_metadata(after, other) <==> no_metadata(before, other),
{
    if first_metadata_at(before, other, j) {
        assert forall|k: int| 0 <= k < j implies (#[trigger] after[k]).arena_id != other by {
            assert(before[k].arena_id != other);
        }
    }
    if first_metadata_at(after, other, j) {
        assert(j < before.len());
        assert forall|k: int| 0 <= k < j implies (#[trigger] before[k]).arena_id != other by {
            assert(after[k].arena_id != other);
        }
    }
    if no_metadata(before, other) {
        assert forall|x: int| 0 <= x < after.len() implies (#[trigger] after[x]).arena_id != other by {
            if x < before.len() {
                assert(before[x].arena_id != other);
            }
        }
    }
    if no_metadata(after, other) {
        assert forall|x: int| 0 <= x < before.len() implies (#[trigger] before[x]).arena_id != other by {
            assert(after[x].arena_id != other);
        }
    }
}

/// A metadata read gives back the last write: once metadata of an arena is
/// stored, the record found for that arena is the one written, and the records
/// found for every other arena are as before.
pub proof fn law_metadata_read_back(
    before: Seq<ArenaMetadata>,
    after: Seq<ArenaMetadata>,
    arena_id: u64,
    m: ArenaMetadata,
    other: u64,
    j: int,
)
    requires
        m.arena_id == arena_id,
        metadata_written(before, after, arena_id, m),
        other != arena_id,
    ensures
        exists|i: int| first_metadata_at(after, arena_id, i) && after[i] == m,
        first_metadata_at(after, other, j) <==> first_metadata_at(before, other, j),
        first_metadata_at(after, other, j) ==> after[j] == before[j],
        no_metadata(after, other) <==> no_metadata(before, other),
{
    if no_metadata(before, arena_id) {
        let n = before.len() as int;
        assert(after == before.push(m));
        assert(first_metadata_at(after, arena_id, n));
        assert forall|x: int| 0 <= x < n implies #[trigger] after[x] == before[x] by {}
        assert forall|x: int| 0 <= x < before.len() implies ((#[trigger] after[x]).arena_id == other
            <==> before[x].arena_id == other) by {}
        lemma_same_lookup(before, after, other, j);
    } else {
        let k = choose|k: int| 0 <= k < before.len() && (#[trigger] before[k]).arena_id == arena_id;
        lemma_first_metadata_exists(before, arena_id, k);
        let i = choose|i: int| first_metadata_at(before, arena_id, i);
        assert(after == before.update(i, m));
        assert(first_metadata_at(after, arena_id, i));
        assert forall|x: int| 0 <= x < before.len() implies ((#[trigger] after[x]).arena_id == other
            <==> before[x].arena_id == other) by {
            if x == i {
                assert(after[x].arena_id == arena_id);
            }
        }
        lemma_same_lookup(before, after, other, j);
        if first_metadata_at(after, other, j) {
            assert(j != i);
        }
    }
}

/// A record with nothing for `round_number` and `player` gives no choice for them.
proof fn lemma_recorded_none(h: Seq<ChoiceEntry>, round_number: u32, player: Addr)
    requires
        forall|j: int| 0 <= j < h.len() ==> !((#[trigger] h[j]).round == round_number && h[j].player == player),
    ensures
        recorded_choice(h, round_number, player) is None,
    decreases h.len(),
{
    if h.len() > 0 {
        assert forall|j: int| 0 <= j < h.drop_first().len() implies !((#[trigger] h.drop_first()[j]).round
            == round_number && h.drop_first()[j].player == player) by {
            assert(h.drop_first()[j] == h[j + 1]);
        }
        lemma_recorded_none(h.drop_first(), round_number, player);
    }
}

/// Appending an entry changes no lookup that already finds a choice, and makes a
/// lookup that finds none find the entry's choice when the entry matches it.
proof fn lemma_recorded_push(h: Seq<ChoiceEntry>, e: ChoiceEntry, round_number: u32, player: Addr)
    ensures
        recorded_choice(h.push(e), round_number, player) == match recorded_choice(h, round_number, player) {
            Some(c) => Some(c),
            None => if e.round == round_number && e.player == player {
                Some(e.choice)
            } else {
                None
            },
        },
    decreases h.len(),
{
    if h.len() > 0 {
        assert(h.push(e).drop_first() =~= h.drop_first().push(e));
        assert(h.push(e)[0] == h[0]);
        lemma_recorded_push(h.drop_first(), e, round_number, player);
    } else {
        assert(h.push(e).drop_first() =~= Seq::<ChoiceEntry>::empty());
        assert(recorded_choice(Seq::<ChoiceEntry>::empty(), round_number, player) is None);
        assert(h.push(e)[0] == e);
    }
}

/// A reveal that is accepted can be read back: afterwards the choice on record for
/// that player and round is the one revealed, and every other lookup gives what it
/// gave before.
pub proof fn law_reveal_then_get_choice(
    old: ArenaContract,
    new: ArenaContract,
    effects: Vec<Effect>,
    ledger: Ledger,
    player: Addr,
    round_number: u32,
    choice: Choice,
    digest: [u8; 32],
    coin: bool,
    other_round: u32,
    other: Addr,
)
    requires
        old.wf(),
        reveal_post(old, new, Ok(effects), ledger, player, round_number, choice, digest, coin),
    ensures
        recorded_choice(new.history@, round_number, player) == Some(choice),
        !(other_round == round_number && other == player) ==> recorded_choice(new.history@, other_round, other)
            == recorded_choice(old.history@, other_round, other),
{
    let p = old.players@;
    let i = index_of(p, player).unwrap();
    assert(exists|k: int| 0 <= k < p.len() && p[k].addr == player);
    assert(0 <= i < p.len() && p[i].addr == player);
    assert(round_no(old.core) == round_number);
    lemma_history_after_reveal(old.core, p, old.history@, i, choice);
    lemma_recorded_none(old.history@, round_number, player);
    let e = ChoiceEntry { round: round_number, player, choice };
    lemma_recorded_push(old.history@, e, round_number, player);
    lemma_recorded_push(old.history@, e, other_round, other);
}

/// Resolving a round only knocks players out: the round comes back finished and
/// stored as the current round; the same players keep their places and reveals;
/// nobody becomes a survivor again and no elimination is undone; the survivor
/// count does not grow.
pub proof fn law_resolution_only_eliminates(
    core: ArenaCore,
    p: Seq<PlayerRecord>,
    coin: bool,
    core2: ArenaCore,
    p2: Seq<PlayerRecord>,
    added: Seq<Effect>,
    round: RoundState,
)
    requires
        state_wf(core, p),
        core.round matches Some(rs) && !rs.active && !rs.finished,
        resolves_to(core, p, coin, core2, p2, added, round),
    ensures
        round == (RoundState { finished: true, ..core.round.unwrap() }),
        core2.round == Some(round),
        only_eliminates(p, p2),
        core2.survivor_count <= core.survivor_count,
{
    reveal(limit_outcome);
    reveal(round_outcome);
    if max_rounds_reached(core) {
        assert(p2 == p);
    } else {
        let w = choose|w: int| #[trigger] winner_at(core, p, coin, p2, added, w);
        lemma_resolution_wf(core, p, coin, core2, p2, w);
        lemma_losers_le(p, round_no(core), round_side(core, p, coin));
    }
}

/// The join deadline read after a successful configuration is the one configured,
/// and so is the rest of the configuration.
pub proof fn law_join_deadline_after_init(core: ArenaCore, speed: u32, stake: i128, join_deadline: u64)
    ensures
        configured_core(core, speed, stake, join_deadline).config matches Some(c) && c.join_deadline == join_deadline
            && c.round_speed_in_ledgers == speed && c.required_stake_amount == stake && c.max_rounds
            == DEFAULT_MAX_ROUNDS && c.round_duration_seconds == 0,
{
}

/// Expiring an arena asks nothing of whoever calls it: on the same stored state
/// and ledger, the answer, the refunds and the new state are always the same.
pub proof fn law_expire_needs_no_caller(
    s: ArenaContract,
    n1: ArenaContract,
    n2: ArenaContract,
    ledger: Ledger,
    r1: Result<Vec<Effect>, ArenaError>,
    r2: Result<Vec<Effect>, ArenaError>,
)
    requires
        expire_post(s, n1, ledger, r1),
        expire_post(s, n2, ledger, r2),
    ensures
        n1.core == n2.core,
        n1.players@ == n2.players@,
        n1.history@ == n2.history@,
        n1.metadata@ == n2.metadata@,
        match (r1, r2) {
            (Ok(e1), Ok(e2)) => e1@ == e2@,
            (Err(a), Err(b)) => a == b,
            _ => false,
        },
{
}

// ── What the refunds, the round-limit split, commitments and winners are for ──

/// Each entry of a refund pass pays `amount` to a survivor not refunded yet.
proof fn lemma_refund_pays_survivors(s: Seq<PlayerRecord>, amount: i128, j: int)
    requires
        0 <= j < refund_payments(s, amount).len(),
    ensures
        refund_payments(s, amount)[j] matches Effect::Pay { to, amount: a } && a == amount && exists|i: int|
            0 <= i < s.len() && (#[trigger] s[i]).addr == to && s[i].survivor && !s[i].refunded,
    decreases s.len(),
{
    let d = s.drop_last();
    let r = refund_payments(d, amount);
    if j < r.len() {
        lemma_refund_pays_survivors(d, amount, j);
        let e = r[j];
        if let Effect::Pay { to, amount: a } = e {
            let i = choose|i: int| 0 <= i < d.len() && (#[trigger] d[i]).addr == to && d[i].survivor && !d[i].refunded;
            assert(s[i] == d[i]);
        }
    } else {
        let last = s.len() - 1;
        assert(s[last] == s.last());
    }
}

/// Calling an arena off refunds survivors only: every payment is the stake, paid
/// to a player who was still standing and not yet refunded; a knocked-out player
/// is never paid.
pub proof fn law_cancel_refunds_only_survivors(s0: ArenaContract, s1: ArenaContract, effects: Vec<Effect>, j: int, k: int)
    requires
        s0.wf(),
        cancel_post(s0, s1, Ok(effects)),
        0 <= j < effects@.len(),
    ensures
        effects@[j] matches Effect::Pay { to, amount } ==> amount == s0.core.config.unwrap().required_stake_amount
            && exists|i: int| 0 <= i < s0.players@.len() && (#[trigger] s0.players@[i]).addr == to
            && s0.players@[i].survivor && !s0.players@[i].refunded,
        0 <= k < s0.players@.len() && !s0.players@[k].survivor ==> !(effects@[j] matches Effect::Pay { to, .. } && to
            == s0.players@[k].addr),
{
    let p = s0.players@;
    let amount = s0.core.config.unwrap().required_stake_amount;
    let rp = refund_payments(p, amount);
    let sce = state_change_effects(s0.core.state, ArenaState::Cancelled, s0.core.factory, s0.core.arena_id);
    assert(effects@ == rp + sce + seq![Effect::Emit(crate::events::Event::Cancelled)]);
    if j < rp.len() {
        lemma_refund_pays_survivors(p, amount, j);
        assert(effects@[j] == rp[j]);
    } else if j < rp.len() + sce.len() {
        assert(effects@[j] == sce[j - rp.len()]);
    } else {
        assert(effects@[j] == Effect::Emit(crate::events::Event::Cancelled));
    }
}

/// Every address in the survivors' list belongs to a survivor.
proof fn lemma_survivor_addrs_are_survivors(s: Seq<PlayerRecord>, k: int)
    requires
        0 <= k < survivor_addrs(s).len(),
    ensures
        exists|i: int| 0 <= i < s.len() && (#[trigger] s[i]).addr == survivor_addrs(s)[k] && s[i].survivor,
    decreases s.len(),
{
    let d = s.drop_last();
    if k < survivor_addrs(d).len() {
        lemma_survivor_addrs_are_survivors(d, k);
        let i = choose|i: int| 0 <= i < d.len() && (#[trigger] d[i]).addr == survivor_addrs(d)[k] && d[i].survivor;
        assert(s[i] == d[i]);
    } else {
        assert(s[s.len() - 1] == s.last());
    }
}

/// Every survivor's address is in the survivors' list.
proof fn lemma_survivor_in_addrs(s: Seq<PlayerRecord>, i: int)
    requires
        0 <= i < s.len(),
        s[i].survivor,
    ensures
        exists|k: int| 0 <= k < survivor_addrs(s).len() && #[trigger] survivor_addrs(s)[k] == s[i].addr,
    decreases s.len(),
{
    let d = s.drop_last();
    if i < s.len() - 1 {
        assert(d[i] == s[i]);
        lemma_survivor_in_addrs(d, i);
        let k = choose|k: int| 0 <= k < survivor_addrs(d).len() && #[trigger] survivor_addrs(d)[k] == d[i].addr;
        assert(survivor_addrs(s)[k] == survivor_addrs(d)[k]);
    } else {
        let k = survivor_addrs(d).len() as int;
        assert(survivor_addrs(s)[k] == s.last().addr);
    }
}

/// At the round limit the pool goes to the survivors alone: every payment is to a
/// player still standing, and each survivor is paid the pool divided by the number
/// of survivors.
pub proof fn law_limit_pays_only_survivors(
    core: ArenaCore,
    p: Seq<PlayerRecord>,
    coin: bool,
    core2: ArenaCore,
    p2: Seq<PlayerRecord>,
    added: Seq<Effect>,
    round: RoundState,
    j: int,
    i: int,
)
    requires
        state_wf(core, p),
        max_rounds_reached(core),
        resolves_to(core, p, coin, core2, p2, added, round),
    ensures
        0 <= j < added.len() ==> (added[j] matches Effect::Pay { to, .. } ==> exists|x: int| 0 <= x < p.len()
            && (#[trigger] p[x]).addr == to && p[x].survivor),
        0 <= i < p.len() && p[i].survivor && core.prize_pool > 0 ==> exists|x: int| 0 <= x < added.len()
            && #[trigger] added[x] == (Effect::Pay {
                to: p[i].addr,
                amount: ((core.prize_pool as int) / (core.survivor_count as int)) as i128,
            }),
{
    reveal(limit_outcome);
    let sa = survivor_addrs(p);
    let pool = core.prize_pool;
    let split = split_payments(sa, pool);
    let sce = state_change_effects(core.state, ArenaState::Completed, core.factory, core.arena_id);
    assert(added == split + sce);
    lemma_survivor_addrs_len(p);
    if 0 <= j < added.len() {
        if j < split.len() {
            assert(added[j] == split[j]);
            let n = sa.len();
            let share = ((pool as int) / (n as int)) as i128;
            if j < n {
                assert(split[j] == pay_each(share)(sa[j]));
                lemma_survivor_addrs_are_survivors(p, j);
            } else {
                lemma_survivor_addrs_are_survivors(p, 0);
            }
        } else {
            assert(added[j] == sce[j - split.len()]);
        }
    }
    if 0 <= i < p.len() && p[i].survivor && pool > 0 {
        lemma_survivor_in_addrs(p, i);
        let k = choose|k: int| 0 <= k < sa.len() && #[trigger] sa[k] == p[i].addr;
        let share = ((pool as int) / (sa.len() as int)) as i128;
        assert(split[k] == pay_each(share)(sa[k]));
        assert(added[k] == split[k]);
    }
}

/// A commitment binds the player: its preimage is the choice byte, the nonce and
/// then the player's address encoding, for every kind of address, so equal
/// preimages mean the same choice, nonce and player.
pub proof fn law_preimage_binds_player(c1: Choice, n1: [u8; 32], p1: Addr, c2: Choice, n2: [u8; 32], p2: Addr)
    ensures
        commitment_preimage(c1, n1, p1).len() == 33 + addr_xdr(p1).len(),
        commitment_preimage(c1, n1, p1)[0] == choice_byte(c1),
        commitment_preimage(c1, n1, p1).subrange(1, 33) == n1@,
        commitment_preimage(c1, n1, p1).subrange(33, commitment_preimage(c1, n1, p1).len() as int) == addr_xdr(p1),
        commitment_preimage(c1, n1, p1) == commitment_preimage(c2, n2, p2) ==> c1 == c2 && n1 == n2 && p1 == p2,
{
    let a = commitment_preimage(c1, n1, p1);
    let b = commitment_preimage(c2, n2, p2);
    assert(a.subrange(1, 33) =~= n1@);
    assert(a.subrange(33, a.len() as int) =~= addr_xdr(p1));
    if a == b {
        assert(b.subrange(1, 33) =~= n2@);
        assert(b.subrange(33, b.len() as int) =~= addr_xdr(p2));
        assert(n1 =~= n2);
        lemma_addr_xdr_injective(p1, p2);
        assert(a[0] == choice_byte(c1));
        assert(b[0] == choice_byte(c2));
        assert(choice_byte(c1) == choice_byte(c2));
    }
}

/// A survivor may commit in every round: as long as the round is open, its commit
/// window has not passed, and the player has nothing committed for this very round,
/// the commitment is accepted, whatever they committed in earlier rounds.
pub proof fn law_fresh_commit_accepted(core: ArenaCore, p: Seq<PlayerRecord>, i: int, round_number: u32, ledger: Ledger)
    requires
        !core.paused,
        core.round matches Some(rs) && rs.active && rs.round_number == round_number && ledger.sequence
            <= rs.round_deadline_ledger,
        0 <= i < p.len(),
        p[i].survivor,
        forall|k: int| 0 <= k < p.len() && (#[trigger] p[k]).addr == p[i].addr ==> !(p[k].commitment matches Some(
            c,
        ) && c.round == round_number),
    ensures
        commit_error(core, p, p[i].addr, round_number, ledger) is None,
{
    assert(p[i].addr == p[i].addr && p[i].survivor);
}

/// Only a player still standing can be named winner: an accepted naming implies a
/// survivor record of that player, and naming a player none of whose records
/// survives is refused with `NotASurvivor` (unless the arena is paused).
pub proof fn law_winner_must_survive(core: ArenaCore, p: Seq<PlayerRecord>, player: Addr, stake: i128, yield_comp: i128)
    ensures
        set_winner_error(core, p, player, stake, yield_comp) is None ==> exists|i: int| 0 <= i < p.len()
            && (#[trigger] p[i]).addr == player && p[i].survivor,
        !core.paused && (forall|i: int| 0 <= i < p.len() && (#[trigger] p[i]).addr == player ==> !p[i].survivor)
            ==> set_winner_error(core, p, player, stake, yield_comp) == Some(ArenaError::NotASurvivor),
{
}

} // verus!
