//! How a round ends: the minority side survives, everyone else still standing
//! is eliminated; one survivor wins, none means a draw that splits the pool.
use vstd::prelude::*;
use crate::addr::Addr;
use crate::admin::{
    set_state, state_change_effects,
};
use crate::events::{
    Effect, Event, PlayerEliminated, RoundResolved, WinnerDeclared,
};
use crate::model::{
    ArenaCore, PlayerRecord, RoundChoice, count_where, is_survivor, lemma_count_ext, lemma_count_mono, lemma_count_none, lemma_count_prefix, lemma_count_take, picked, reveals_of, round_no, state_wf, only_eliminates,
};
use crate::types::{
    ArenaError, ArenaState, Choice, RoundState,
};

verus! {

/// The side that survives a round with `heads` and `tails` reveals: nobody when
/// nobody revealed; the only side picked; otherwise the smaller side, and on a
/// tie the side of the coin (`true` for heads).
pub open spec fn surviving_side(heads: nat, tails: nat, coin: bool) -> Option<Choice> {
    if heads == 0 && tails == 0 {
        None
    } else if heads == 0 {
        Some(Choice::Tails)
    } else if tails == 0 {
        Some(Choice::Heads)
    } else if heads == tails {
        if coin { Some(Choice::Heads) } else { Some(Choice::Tails) }
    } else if heads < tails {
        Some(Choice::Heads)
    } else {
        Some(Choice::Tails)
    }
}

/// Picks the surviving side.
pub fn choose_surviving_side(heads_count: u32, tails_count: u32, coin: bool) -> (r: Option<Choice>)
    ensures
        r == surviving_side(heads_count as nat, tails_count as nat, coin),
{
    if heads_count == 0 && tails_count == 0 {
        None
    } else if heads_count == 0 {
        Some(Choice::Tails)
    } else if tails_count == 0 {
        Some(Choice::Heads)
    } else if heads_count == tails_count {
        if coin { Some(Choice::Heads) } else { Some(Choice::Tails) }
    } else if heads_count < tails_count {
        Some(Choice::Heads)
    } else {
        Some(Choice::Tails)
    }
}

/// A survivor who did not reveal the surviving side in round `n` is out.
pub open spec fn loses(r: PlayerRecord, n: u32, side: Option<Choice>) -> bool {
    r.survivor && match side {
        Some(c) => r.revealed != Some(RoundChoice { round: n, choice: c }),
        None => true,
    }
}

pub open spec fn losers(n: u32, side: Option<Choice>) -> spec_fn(PlayerRecord) -> bool {
    |r: PlayerRecord| loses(r, n, side)
}

/// The record after round `n`.
pub open spec fn after_round(r: PlayerRecord, n: u32, side: Option<Choice>) -> PlayerRecord {
    if loses(r, n, side) {
        PlayerRecord { survivor: false, eliminated: true, ..r }
    } else {
        r
    }
}

pub open spec fn round_map(n: u32, side: Option<Choice>) -> spec_fn(PlayerRecord) -> PlayerRecord {
    |r: PlayerRecord| after_round(r, n, side)
}

/// The choice reported for an eliminated player: what they revealed in round `n`,
/// heads when they revealed nothing.
pub open spec fn choice_made(r: PlayerRecord, n: u32) -> Choice {
    match r.revealed {
        Some(rc) => if rc.round == n { rc.choice } else { Choice::Heads },
        None => Choice::Heads,
    }
}

/// The elimination events of round `n`, in joining order.
pub open spec fn elimination_events(s: Seq<PlayerRecord>, n: u32, side: Option<Choice>) -> Seq<Effect>
    decreases s.len(),
{
    if s.len() == 0 {
        seq![]
    } else {
        elimination_events(s.drop_last(), n, side) + if loses(s.last(), n, side) {
            seq![Effect::Emit(Event::PlayerEliminated(PlayerEliminated {
                arena_id: 0,
                round: n,
                player: s.last().addr,
                choice_made: choice_made(s.last(), n),
            }))]
        } else {
            seq![]
        }
    }
}

/// The addresses eliminated in round `n`, in joining order.
pub open spec fn eliminated_addrs(s: Seq<PlayerRecord>, n: u32, side: Option<Choice>) -> Seq<Addr>
    decreases s.len(),
{
    if s.len() == 0 {
        seq![]
    } else {
        eliminated_addrs(s.drop_last(), n, side) + if loses(s.last(), n, side) {
            seq![s.last().addr]
        } else {
            seq![]
        }
    }
}

/// The addresses of the survivors, in joining order.
pub open spec fn survivor_addrs(s: Seq<PlayerRecord>) -> Seq<Addr>
    decreases s.len(),
{
    if s.len() == 0 {
        seq![]
    } else {
        survivor_addrs(s.drop_last()) + if s.last().survivor {
            seq![s.last().addr]
        } else {
            seq![]
        }
    }
}

/// The addresses of all players, in joining order.
pub open spec fn all_addrs(s: Seq<PlayerRecord>) -> Seq<Addr> {
    s.map_values(|r: PlayerRecord| r.addr)
}

/// A payment of `amount` to each address.
pub open spec fn pay_each(amount: i128) -> spec_fn(Addr) -> Effect {
    |a: Addr| Effect::Pay { to: a, amount }
}

/// An even split of `pool` among `addrs`: each gets the quotient, the first also
/// the remainder. Nothing is paid when there is nobody or nothing to pay.
pub open spec fn split_payments(addrs: Seq<Addr>, pool: i128) -> Seq<Effect> {
    if addrs.len() == 0 || pool <= 0 {
        seq![]
    } else {
        let share = ((pool as int) / (addrs.len() as int)) as i128;
        let dust = ((pool as int) % (addrs.len() as int)) as i128;
        addrs.map_values(pay_each(share)) + if dust > 0 {
            seq![Effect::Pay { to: addrs[0], amount: dust }]
        } else {
            seq![]
        }
    }
}

/// The side that survives the current round.
pub open spec fn round_side(core: ArenaCore, p: Seq<PlayerRecord>, coin: bool) -> Option<Choice> {
    let n = round_no(core);
    surviving_side(count_where(p, picked(n, Choice::Heads)), count_where(p, picked(n, Choice::Tails)), coin)
}

/// How many survivors remain after the current round.
pub open spec fn remaining(core: ArenaCore, p: Seq<PlayerRecord>, coin: bool) -> int {
    core.survivor_count - count_where(p, losers(round_no(core), round_side(core, p, coin)))
}

/// The current round has reached the round limit.
pub open spec fn max_rounds_reached(core: ArenaCore) -> bool {
    round_no(core) > 0 && round_no(core) >= core.config.unwrap().max_rounds
}

/// Why resolving the current round fails.
pub open spec fn resolve_error(core: ArenaCore, p: Seq<PlayerRecord>, coin: bool) -> Option<ArenaError> {
    if max_rounds_reached(core) {
        if survivor_addrs(p).len() > 0 && core.prize_pool > 0 && core.token is None {
            Some(ArenaError::TokenNotSet)
        } else {
            None
        }
    } else if remaining(core, p, coin) == 0 && p.len() > 0 && core.prize_pool > 0 && core.token is None {
        Some(ArenaError::TokenNotSet)
    } else {
        None
    }
}

/// `w` holds a survivor.
pub open spec fn survivor_at(s: Seq<PlayerRecord>, w: int) -> bool {
    0 <= w < s.len() && s[w].survivor
}

#[verifier::opaque]
/// The outcome of resolving a round that reached the round limit: the survivors
/// split the pool and the arena completes.
pub open spec fn limit_outcome(
    core: ArenaCore,
    p: Seq<PlayerRecord>,
    core2: ArenaCore,
    p2: Seq<PlayerRecord>,
    added: Seq<Effect>,
    round: RoundState,
) -> bool {
    let rs = core.round.unwrap();
    let pool = core.prize_pool;
    &&& round == RoundState { finished: true, ..rs }
    &&& p2 == p
    &&& core2 == ArenaCore {
        prize_pool: if survivor_addrs(p).len() > 0 && pool > 0 { 0 } else { pool },
        finished: true,
        round: Some(round),
        state: ArenaState::Completed,
        ..core
    }
    &&& added == split_payments(survivor_addrs(p), pool) + state_change_effects(
        core.state,
        ArenaState::Completed,
        core.factory,
        core.arena_id,
    )
}

/// The records and the effects of an ordinary resolution, with the winner (when
/// there is one) at `w`.
pub open spec fn winner_at(
    core: ArenaCore,
    p: Seq<PlayerRecord>,
    coin: bool,
    p2: Seq<PlayerRecord>,
    added: Seq<Effect>,
    w: int,
) -> bool {
    let n = round_no(core);
    let side = round_side(core, p, coin);
    let rem = remaining(core, p, coin);
    let after = p.map_values(round_map(n, side));
    &&& (rem == 1 ==> survivor_at(after, w))
    &&& p2 == if rem == 1 { after.update(w, PlayerRecord { winner: true, ..after[w] }) } else { after }
    &&& added.drop_last() == elimination_events(p, n, side) + closing_effects(core, p, coin, w)
}

#[verifier::opaque]
/// The outcome of resolving an ordinary round with `coin` as the tie-breaker.
pub open spec fn round_outcome(
    core: ArenaCore,
    p: Seq<PlayerRecord>,
    coin: bool,
    core2: ArenaCore,
    p2: Seq<PlayerRecord>,
    added: Seq<Effect>,
    round: RoundState,
) -> bool {
    let rs = core.round.unwrap();
    let n = rs.round_number;
    let side = round_side(core, p, coin);
    let rem = remaining(core, p, coin);
    let fin = core.finished || rem <= 1;
    let pool = core.prize_pool;
    let after = p.map_values(round_map(n, side));
    &&& round == RoundState { finished: true, ..rs }
    &&& core2 == ArenaCore {
        survivor_count: rem as u32,
        finished: fin,
        prize_pool: if rem == 0 && p.len() > 0 && pool > 0 { 0 } else { pool },
        state: if fin { ArenaState::Completed } else { core.state },
        round: Some(round),
        ..core
    }
    &&& added.len() >= 1
    &&& exists|w: int| #[trigger] winner_at(core, p, coin, p2, added, w)
    &&& added.last() matches Effect::Emit(Event::RoundResolved(rr)) && rr.arena_id == 0 && rr.round == n
        && rr.heads_count == count_where(p, picked(n, Choice::Heads)) && rr.tails_count == count_where(
        p,
        picked(n, Choice::Tails),
    ) && rr.eliminated@ == eliminated_addrs(p, n, side)
}

// ── Paying out ──────────────────────────────────────────────────────────────

/// Pays `pool` out evenly to `addrs`, the remainder to the first.
fn pay_split(addrs: &Vec<Addr>, pool: i128, effects: &mut Vec<Effect>)
    requires
        addrs@.len() > 0,
        pool > 0,
    ensures
        final(effects)@ == old(effects)@ + split_payments(addrs@, pool),
{
    let k = addrs.len();
    let total = pool as u128;
    let share = (total / (k as u128)) as i128;
    let dust = (total % (k as u128)) as i128;
    assert(share == (pool as int) / (k as int));
    assert(dust == (pool as int) % (k as int));
    let ghost pays = addrs@.map_values(pay_each(share));
    let mut i: usize = 0;
    while i < k
        invariant
            k == addrs@.len(),
            0 <= i <= k,
            pays == addrs@.map_values(pay_each(share)),
            effects@ == old(effects)@ + pays.take(i as int),
        decreases k - i,
    {
        effects.push(Effect::Pay { to: addrs[i], amount: share });
        assert(pays.take(i + 1) =~= pays.take(i as int).push(pays[i as int]));
        i = i + 1;
    }
    assert(pays.take(k as int) =~= pays);
    if dust > 0 {
        effects.push(Effect::Pay { to: addrs[0], amount: dust });
    }
    assert(effects@ =~= old(effects)@ + split_payments(addrs@, pool));
}

/// The addresses of the survivors.
fn collect_survivors(players: &Vec<PlayerRecord>) -> (r: Vec<Addr>)
    ensures
        r@ == survivor_addrs(players@),
{
    let mut r: Vec<Addr> = Vec::new();
    let mut i: usize = 0;
    while i < players.len()
        invariant
            0 <= i <= players@.len(),
            r@ == survivor_addrs(players@.take(i as int)),
        decreases players@.len() - i,
    {
        let rec = players[i];
        proof {
            let t = players@.take(i + 1);
            assert(t.drop_last() =~= players@.take(i as int));
        }
        if rec.survivor {
            r.push(rec.addr);
        }
        assert(r@ =~= survivor_addrs(players@.take(i + 1)));
        i = i + 1;
    }
    assert(players@.take(players@.len() as int) =~= players@);
    r
}

/// The addresses of all players.
fn collect_all(players: &Vec<PlayerRecord>) -> (r: Vec<Addr>)
    ensures
        r@ == all_addrs(players@),
{
    let mut r: Vec<Addr> = Vec::new();
    let mut i: usize = 0;
    while i < players.len()
        invariant
            0 <= i <= players@.len(),
            r@ == all_addrs(players@.take(i as int)),
        decreases players@.len() - i,
    {
        r.push(players[i].addr);
        assert(r@ =~= all_addrs(players@.take(i + 1)));
        i = i + 1;
    }
    assert(players@.take(players@.len() as int) =~= players@);
    r
}

// ── Counting lemmas for a round ───────────────────────────────────────────────

/// The survivors after a round are the survivors before it, less the losers.
pub proof fn lemma_count_after_round(s: Seq<PlayerRecord>, n: u32, side: Option<Choice>)
    ensures
        count_where(s.map_values(round_map(n, side)), is_survivor()) + count_where(s, losers(n, side))
            == count_where(s, is_survivor()),
    decreases s.len(),
{
    if s.len() > 0 {
        lemma_count_after_round(s.drop_last(), n, side);
        assert(s.map_values(round_map(n, side)).drop_last() =~= s.drop_last().map_values(round_map(n, side)));
        assert(s.map_values(round_map(n, side)).last() == after_round(s.last(), n, side));
    }
}

/// Losers are survivors.
pub proof fn lemma_losers_le(s: Seq<PlayerRecord>, n: u32, side: Option<Choice>)
    ensures
        count_where(s, losers(n, side)) <= count_where(s, is_survivor()),
{
    lemma_count_mono(s, losers(n, side), is_survivor());
}

/// The first survivor, if any.
fn first_survivor(players: &Vec<PlayerRecord>) -> (r: Option<usize>)
    ensures
        match r {
            Some(i) => survivor_at(players@, i as int),
            None => forall|j: int| 0 <= j < players@.len() ==> !(#[trigger] players@[j]).survivor,
        },
{
    let mut i: usize = 0;
    while i < players.len()
        invariant
            0 <= i <= players@.len(),
            forall|j: int| 0 <= j < i ==> !(#[trigger] players@[j]).survivor,
        decreases players@.len() - i,
    {
        if players[i].survivor {
            return Some(i);
        }
        i = i + 1;
    }
    None
}

/// Resolves a round that reached the round limit: the survivors split the pool.
fn resolve_at_limit(
    core: &mut ArenaCore,
    players: &Vec<PlayerRecord>,
    effects: &mut Vec<Effect>,
) -> (r: Result<RoundState, ArenaError>)
    requires
        state_wf(*old(core), players@),
        old(core).round matches Some(rs) && !rs.active && !rs.finished,
        max_rounds_reached(*old(core)),
    ensures
        match r {
            Err(e) => e == ArenaError::TokenNotSet && survivor_addrs(players@).len() > 0 && old(core).prize_pool > 0
                && old(core).token is None,
            Ok(round) => {
                &&& !(survivor_addrs(players@).len() > 0 && old(core).prize_pool > 0 && old(core).token is None)
                &&& state_wf(*final(core), players@)
                &&& final(effects)@.len() >= old(effects)@.len()
                &&& final(effects)@.take(old(effects)@.len() as int) == old(effects)@
                &&& limit_outcome(*old(core), players@, *final(core), players@,
                    final(effects)@.skip(old(effects)@.len() as int), round)
            },
        },
{
    let ghost c0 = *core;
    let ghost e0 = effects@;
    let rs = core.round.unwrap();
    let pool = core.prize_pool;
    let survivors = collect_survivors(players);
    if survivors.len() > 0 && pool > 0 {
        if core.token.is_none() {
            return Err(ArenaError::TokenNotSet);
        }
        pay_split(&survivors, pool, effects);
        core.prize_pool = 0;
    } else {
        assert(effects@ =~= e0 + split_payments(survivor_addrs(players@), pool));
    }
    core.finished = true;
    let round = RoundState { finished: true, ..rs };
    core.round = Some(round);
    set_state(core, ArenaState::Completed, effects);
    proof {
        reveal(limit_outcome);
        assert(effects@.take(e0.len() as int) =~= e0);
        assert(effects@.skip(e0.len() as int) =~= split_payments(survivor_addrs(players@), pool)
            + state_change_effects(c0.state, ArenaState::Completed, c0.factory, c0.arena_id));
    }
    Ok(round)
}

/// How many players revealed heads and tails in round `n`.
fn count_picks(players: &Vec<PlayerRecord>, n: u32, total: u32) -> (r: (u32, u32))
    requires
        count_where(players@, reveals_of(n)) == total,
    ensures
        r.0 == count_where(players@, picked(n, Choice::Heads)),
        r.1 == count_where(players@, picked(n, Choice::Tails)),
{
    let ghost p0 = players@;
    let mut heads: u32 = 0;
    let mut tails: u32 = 0;
    let mut i: usize = 0;
    while i < players.len()
        invariant
            0 <= i <= p0.len(),
            p0 == players@,
            count_where(p0, reveals_of(n)) == total,
            heads == count_where(p0.take(i as int), picked(n, Choice::Heads)),
            tails == count_where(p0.take(i as int), picked(n, Choice::Tails)),
            heads + tails == count_where(p0.take(i as int), reveals_of(n)),
        decreases p0.len() - i,
    {
        let rec = players[i];
        proof {
            lemma_count_take(p0, i as int, picked(n, Choice::Heads));
            lemma_count_take(p0, i as int, picked(n, Choice::Tails));
            lemma_count_take(p0, i as int, reveals_of(n));
            lemma_count_prefix(p0, i + 1, reveals_of(n));
        }
        match rec.revealed {
            Some(rc) => {
                if rc.round == n {
                    match rc.choice {
                        Choice::Heads => {
                            heads = heads + 1;
                        },
                        Choice::Tails => {
                            tails = tails + 1;
                        },
                    }
                }
            },
            None => {},
        }
        i = i + 1;
    }
    proof {
        assert(p0.take(p0.len() as int) =~= p0);
    }
    (heads, tails)
}

/// Eliminates everyone still standing who did not reveal `side` in round `n`.
fn eliminate(
    players: &Vec<PlayerRecord>,
    n: u32,
    side: Option<Choice>,
    survivor_count: u32,
    effects: &mut Vec<Effect>,
) -> (r: (Vec<PlayerRecord>, Vec<Addr>, u32))
    requires
        survivor_count == count_where(players@, is_survivor()),
    ensures
        r.0@ == players@.map_values(round_map(n, side)),
        r.1@ == eliminated_addrs(players@, n, side),
        r.2 == count_where(players@, losers(n, side)),
        r.2 <= survivor_count,
        final(effects)@ == old(effects)@ + elimination_events(players@, n, side),
{
    let ghost p0 = players@;
    let ghost e0 = effects@;
    let mut next: Vec<PlayerRecord> = Vec::new();
    let mut gone: Vec<Addr> = Vec::new();
    let mut elim: u32 = 0;
    proof {
        lemma_losers_le(p0, n, side);
    }
    let mut i: usize = 0;
    while i < players.len()
        invariant
            players@ == p0,
            0 <= i <= p0.len(),
            survivor_count == count_where(p0, is_survivor()),
            count_where(p0, losers(n, side)) <= count_where(p0, is_survivor()),
            next@ == p0.take(i as int).map_values(round_map(n, side)),
            gone@ == eliminated_addrs(p0.take(i as int), n, side),
            elim == count_where(p0.take(i as int), losers(n, side)),
            effects@ == e0 + elimination_events(p0.take(i as int), n, side),
        decreases p0.len() - i,
    {
        let rec = players[i];
        proof {
            let t = p0.take(i + 1);
            assert(t.drop_last() =~= p0.take(i as int));
            assert(t.last() == rec);
            lemma_count_prefix(p0, i + 1, losers(n, side));
        }
        let keeps = match side {
            Some(c) => match rec.revealed {
                Some(rc) => rc.round == n && rc.choice == c,
                None => false,
            },
            None => false,
        };
        if rec.survivor && !keeps {
            let made = match rec.revealed {
                Some(rc) => if rc.round == n { rc.choice } else { Choice::Heads },
                None => Choice::Heads,
            };
            next.push(PlayerRecord { survivor: false, eliminated: true, ..rec });
            gone.push(rec.addr);
            effects.push(Effect::Emit(Event::PlayerEliminated(PlayerEliminated {
                arena_id: 0,
                round: n,
                player: rec.addr,
                choice_made: made,
            })));
            elim = elim + 1;
        } else {
            next.push(rec);
        }
        assert(next@ =~= p0.take(i + 1).map_values(round_map(n, side)));
        assert(gone@ =~= eliminated_addrs(p0.take(i + 1), n, side));
        assert(effects@ =~= e0 + elimination_events(p0.take(i + 1), n, side));
        i = i + 1;
    }
    proof {
        assert(p0.take(p0.len() as int) =~= p0);
    }
    (next, gone, elim)
}

/// What follows the eliminations of an ordinary round, before the resolution
/// event: the winner's announcement, the draw's payments, the completion.
pub open spec fn closing_effects(core: ArenaCore, p: Seq<PlayerRecord>, coin: bool, w: int) -> Seq<Effect> {
    let n = round_no(core);
    let side = round_side(core, p, coin);
    let rem = remaining(core, p, coin);
    let fin = core.finished || rem <= 1;
    let pool = core.prize_pool;
    let after = p.map_values(round_map(n, side));
    (if rem == 1 {
        seq![Effect::Emit(Event::WinnerDeclared(WinnerDeclared {
            arena_id: 0,
            winner: after[w].addr,
            prize_pool: pool,
            yield_earned: core.yield_earned,
            total_rounds: n,
        }))]
    } else {
        seq![]
    }) + (if rem == 0 { split_payments(all_addrs(p), pool) } else { seq![] }) + (if fin {
        state_change_effects(core.state, ArenaState::Completed, core.factory, core.arena_id)
    } else {
        seq![]
    })
}

/// Resolves the current round, which must be closed and not yet resolved, on the
/// given copies of the state. `coin` breaks a tie (`true` for heads).
pub fn resolve_in(
    core: &mut ArenaCore,
    players: &mut Vec<PlayerRecord>,
    effects: &mut Vec<Effect>,
    coin: bool,
) -> (r: Result<RoundState, ArenaError>)
    requires
        state_wf(*old(core), old(players)@),
        old(core).round matches Some(rs) && !rs.active && !rs.finished,
    ensures
        match r {
            Err(e) => resolve_error(*old(core), old(players)@, coin) == Some(e),
            Ok(round) => {
                &&& resolve_error(*old(core), old(players)@, coin) is None
                &&& state_wf(*final(core), final(players)@)
                &&& (final(core).state == ArenaState::Completed || final(core).state == old(core).state)
                &&& only_eliminates(old(players)@, final(players)@)
                &&& final(effects)@.len() >= old(effects)@.len()
                &&& final(effects)@.take(old(effects)@.len() as int) == old(effects)@
                &&& if max_rounds_reached(*old(core)) {
                    limit_outcome(*old(core), old(players)@, *final(core), final(players)@,
                        final(effects)@.skip(old(effects)@.len() as int), round)
                } else {
                    round_outcome(*old(core), old(players)@, coin, *final(core), final(players)@,
                        final(effects)@.skip(old(effects)@.len() as int), round)
                }
            },
        },
{
    let ghost c0 = *core;
    let ghost p0 = players@;
    let ghost e0 = effects@;
    let rs = core.round.unwrap();
    let config = core.config.unwrap();
    let n = rs.round_number;
    if n > 0 && n >= config.max_rounds {
        let r = resolve_at_limit(core, players, effects);
        proof {
            reveal(limit_outcome);
        }
        return r;
    }
    let (heads, tails) = count_picks(players, n, rs.total_submissions);
    let side = choose_surviving_side(heads, tails, coin);
    let mut elim_effects: Vec<Effect> = Vec::new();
    let (next, gone, elim) = eliminate(players, n, side, core.survivor_count, &mut elim_effects);
    proof {
        lemma_count_after_round(p0, n, side);
    }
    let rem = core.survivor_count - elim;
    assert(rem == remaining(c0, p0, coin));
    let pool = core.prize_pool;
    if rem == 0 && players.len() > 0 && pool > 0 && core.token.is_none() {
        return Err(ArenaError::TokenNotSet);
    }
    let (closing, done, w) = close_round(core, players, next, rem, coin);
    let ghost mid = effects@ + elim_effects@;
    effects.append(&mut elim_effects);
    let mut closing = closing;
    effects.append(&mut closing);
    effects.push(Effect::Emit(Event::RoundResolved(RoundResolved {
        arena_id: 0,
        round: n,
        heads_count: heads,
        tails_count: tails,
        eliminated: gone,
    })));
    *players = done;
    proof {
        reveal(round_outcome);
        assert(effects@.take(e0.len() as int) =~= e0);
        let added = effects@.skip(e0.len() as int);
        assert(added.drop_last() =~= elimination_events(p0, n, side) + closing_effects(c0, p0, coin, w as int));
        assert(winner_at(c0, p0, coin, players@, added, w as int));
        lemma_resolution_wf(c0, p0, coin, *core, players@, w as int);
    }
    Ok(RoundState { finished: true, ..rs })
}

/// The rest of an ordinary resolution, once the losers are known: the new storage,
/// the closing effects, and where the winner is when there is one.
fn close_round(
    core: &mut ArenaCore,
    players: &Vec<PlayerRecord>,
    next: Vec<PlayerRecord>,
    rem: u32,
    coin: bool,
) -> (r: (Vec<Effect>, Vec<PlayerRecord>, usize))
    requires
        state_wf(*old(core), players@),
        old(core).round matches Some(rs) && !rs.active && !rs.finished,
        !max_rounds_reached(*old(core)),
        next@ == players@.map_values(round_map(round_no(*old(core)), round_side(*old(core), players@, coin))),
        rem == remaining(*old(core), players@, coin),
        count_where(next@, is_survivor()) == rem,
        !(rem == 0 && players@.len() > 0 && old(core).prize_pool > 0 && old(core).token is None),
    ensures
        ({
            let c0 = *old(core);
            let p0 = players@;
            let rs = c0.round.unwrap();
            let fin = c0.finished || rem <= 1;
            let pool = c0.prize_pool;
            let after = next@;
            &&& *final(core) == ArenaCore {
                survivor_count: rem,
                finished: fin,
                prize_pool: if rem == 0 && p0.len() > 0 && pool > 0 { 0 } else { pool },
                state: if fin { ArenaState::Completed } else { c0.state },
                round: Some(RoundState { finished: true, ..rs }),
                ..c0
            }
            &&& (rem == 1 ==> survivor_at(after, r.2 as int))
            &&& r.1@ == if rem == 1 { after.update(r.2 as int, PlayerRecord { winner: true, ..after[r.2 as int] }) } else { after }
            &&& r.0@ == closing_effects(c0, p0, coin, r.2 as int)
        }),
{
    let ghost c0 = *core;
    let rs = core.round.unwrap();
    let pool = core.prize_pool;
    let mut next = next;
    let mut closing: Vec<Effect> = Vec::new();
    let fin = core.finished || rem <= 1;
    core.survivor_count = rem;
    core.finished = fin;
    let ghost after = next@;
    let mut w: usize = 0;
    if rem == 1 {
        match first_survivor(&next) {
            Some(k) => {
                w = k;
                let rec = next[k];
                next.set(k, PlayerRecord { winner: true, ..rec });
                closing.push(Effect::Emit(Event::WinnerDeclared(WinnerDeclared {
                    arena_id: 0,
                    winner: rec.addr,
                    prize_pool: pool,
                    yield_earned: core.yield_earned,
                    total_rounds: rs.round_number,
                })));
            },
            None => {
                proof {
                    lemma_count_none(after, is_survivor());
                }
            },
        }
    }
    let ghost c_win = closing@;
    if rem == 0 && players.len() > 0 && pool > 0 {
        let everyone = collect_all(players);
        pay_split(&everyone, pool, &mut closing);
        core.prize_pool = 0;
    }
    let ghost c_draw = closing@;
    core.round = Some(RoundState { finished: true, ..rs });
    if fin {
        set_state(core, ArenaState::Completed, &mut closing);
    }
    proof {
        let n = round_no(c0);
        if rem == 1 {
            assert(c_win =~= seq![Effect::Emit(Event::WinnerDeclared(WinnerDeclared {
                arena_id: 0,
                winner: after[w as int].addr,
                prize_pool: pool,
                yield_earned: c0.yield_earned,
                total_rounds: n,
            }))]);
        } else {
            assert(c_win =~= seq![]);
        }
        if !(rem == 0 && players@.len() > 0 && pool > 0) {
            assert(c_draw =~= c_win + (if rem == 0 { split_payments(all_addrs(players@), pool) } else { seq![] }));
        }
        assert(closing@ =~= closing_effects(c0, players@, coin, w as int));
    }
    (closing, next, w)
}

/// Resolving an ordinary round keeps the invariant.
pub proof fn lemma_resolution_wf(
    c0: ArenaCore,
    p0: Seq<PlayerRecord>,
    coin: bool,
    c1: ArenaCore,
    p1: Seq<PlayerRecord>,
    w: int,
)
    requires
        state_wf(c0, p0),
        c0.round matches Some(rs) && !rs.active && !rs.finished,
        ({
            let rs = c0.round.unwrap();
            let n = rs.round_number;
            let side = round_side(c0, p0, coin);
            let rem = remaining(c0, p0, coin);
            let fin = c0.finished || rem <= 1;
            let after = p0.map_values(round_map(n, side));
            &&& c1 == ArenaCore {
                survivor_count: rem as u32,
                finished: fin,
                prize_pool: c1.prize_pool,
                state: if fin { ArenaState::Completed } else { c0.state },
                round: Some(RoundState { finished: true, ..rs }),
                ..c0
            }
            &&& (rem == 1 ==> survivor_at(after, w))
            &&& p1 == if rem == 1 { after.update(w, PlayerRecord { winner: true, ..after[w] }) } else { after }
        }),
    ensures
        state_wf(c1, p1),
        only_eliminates(p0, p1),
{
    let rs = c0.round.unwrap();
    let n = rs.round_number;
    let side = round_side(c0, p0, coin);
    let rem = remaining(c0, p0, coin);
    let after = p0.map_values(round_map(n, side));
    lemma_count_after_round(p0, n, side);
    assert forall|i: int| 0 <= i < after.len() implies (#[trigger] after[i]).addr == p0[i].addr
        && after[i].commitment == p0[i].commitment && after[i].revealed == p0[i].revealed
        && after[i].refunded == p0[i].refunded && (!after[i].survivor || !after[i].eliminated)
        && (after[i].survivor ==> p0[i].survivor) by {}
    if rem == 1 {
        crate::model::lemma_count_update(after, w, PlayerRecord { winner: true, ..after[w] }, is_survivor());
    }
    assert forall|i: int| 0 <= i < p1.len() implies (#[trigger] p1[i]).addr == p0[i].addr
        && p1[i].commitment == p0[i].commitment && p1[i].revealed == p0[i].revealed
        && p1[i].refunded == p0[i].refunded && (!p1[i].survivor || !p1[i].eliminated)
        && p1[i].survivor == after[i].survivor && (p1[i].survivor ==> p0[i].survivor)
        && (p0[i].eliminated ==> p1[i].eliminated) by {}
    if c0.state == ArenaState::Pending {
        // Before the first round nobody has revealed anything: everyone is out.
        assert(n == 0);
        assert forall|i: int| 0 <= i < p0.len() implies !(#[trigger] picked(n, Choice::Heads)(p0[i])) by {}
        assert forall|i: int| 0 <= i < p0.len() implies !(#[trigger] picked(n, Choice::Tails)(p0[i])) by {}
        lemma_count_none(p0, picked(n, Choice::Heads));
        lemma_count_none(p0, picked(n, Choice::Tails));
        assert(side is None);
        assert forall|i: int| 0 <= i < p0.len() implies (#[trigger] losers(n, side)(p0[i])) == is_survivor()(p0[i]) by {}
        lemma_count_ext(p0, losers(n, side), is_survivor());
        assert(rem == 0);
    }
}

} // verus!
