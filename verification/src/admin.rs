//! Set-up and administration of an arena: configuration, pausing, the token,
//! capacity, round limit, metadata, and the read-only queries.
use vstd::prelude::*;
use crate::addr::Addr;
use crate::bounds::{DEFAULT_MAX_ROUNDS, MAX_ARENA_PARTICIPANTS, MAX_DESCRIPTION_LEN, MAX_JOIN_WINDOW_SECONDS,
    MAX_MAX_ROUNDS, MAX_NAME_LEN, MAX_SPEED_LEDGERS, MIN_ARENA_PARTICIPANTS, MIN_JOIN_WINDOW_SECONDS, MIN_MAX_ROUNDS,
    MIN_REQUIRED_STAKE};
use crate::events::{Effect, Event};
use crate::model::{lifecycle_step, ArenaContract, ArenaCore, ArenaMetadata, Ledger};
use crate::types::{ArenaConfig, ArenaError, ArenaState, ArenaStateChanged, RoundState};
use crate::upgrade::UpgradeSlot;

verus! {

/// The effects of moving from `old_state` to `new_state`: nothing when they are
/// equal; otherwise the state-change event, then a notice to the factory when the
/// arena knows both its factory and its id.
pub open spec fn state_change_effects(
    old_state: ArenaState,
    new_state: ArenaState,
    factory: Option<Addr>,
    arena_id: Option<u64>,
) -> Seq<Effect> {
    if old_state == new_state {
        seq![]
    } else {
        seq![Effect::Emit(Event::StateChanged(ArenaStateChanged { old_state, new_state }))] + match (
            factory,
            arena_id,
        ) {
            (Some(f), Some(id)) => seq![Effect::NotifyFactory { factory: f, arena_id: id, state: new_state }],
            _ => seq![],
        }
    }
}

/// Moves the arena to `new_state`, recording what the host must announce.
pub fn set_state(core: &mut ArenaCore, new_state: ArenaState, effects: &mut Vec<Effect>)
    ensures
        *final(core) == (ArenaCore { state: new_state, ..*old(core) }),
        final(effects)@ == old(effects)@ + state_change_effects(
            old(core).state,
            new_state,
            old(core).factory,
            old(core).arena_id,
        ),
{
    let old_state = core.state;
    if old_state == new_state {
        assert(effects@ =~= old(effects)@ + state_change_effects(old_state, new_state, core.factory, core.arena_id));
        return;
    }
    core.state = new_state;
    effects.push(Effect::Emit(Event::StateChanged(ArenaStateChanged { old_state, new_state })));
    match (core.factory, core.arena_id) {
        (Some(f), Some(id)) => {
            effects.push(Effect::NotifyFactory { factory: f, arena_id: id, state: new_state });
        },
        _ => {},
    }
    assert(effects@ =~= old(effects)@ + state_change_effects(
        old(core).state,
        new_state,
        old(core).factory,
        old(core).arena_id,
    ));
}

/// The storage of an arena nobody has touched.
pub open spec fn empty_core() -> ArenaCore {
    ArenaCore {
        admin: None,
        factory: None,
        arena_id: None,
        config: None,
        round: None,
        state: ArenaState::Pending,
        paused: false,
        token: None,
        capacity: None,
        prize_pool: 0,
        survivor_count: 0,
        cancelled: false,
        finished: false,
        winner_set: false,
        yield_earned: 0,
        upgrade: UpgradeSlot { pending_hash: None, execute_after: None },
    }
}

/// The round stored by a fresh configuration.
pub open spec fn zero_round() -> RoundState {
    RoundState {
        round_number: 0,
        round_start_ledger: 0,
        round_deadline_ledger: 0,
        round_start: 0,
        round_deadline: 0,
        active: false,
        total_submissions: 0,
        timed_out: false,
        finished: false,
    }
}

/// Why `init` refuses, in the order it checks.
pub open spec fn init_error(
    core: ArenaCore,
    round_speed_in_ledgers: u32,
    required_stake_amount: i128,
    join_deadline: u64,
    now: u64,
) -> Option<ArenaError> {
    if core.config is Some {
        Some(ArenaError::AlreadyInitialized)
    } else if join_deadline < now + MIN_JOIN_WINDOW_SECONDS {
        Some(ArenaError::DeadlineTooSoon)
    } else if join_deadline > now + MAX_JOIN_WINDOW_SECONDS {
        Some(ArenaError::DeadlineTooFar)
    } else if round_speed_in_ledgers == 0 || round_speed_in_ledgers > MAX_SPEED_LEDGERS {
        Some(ArenaError::InvalidRoundSpeed)
    } else if required_stake_amount < MIN_REQUIRED_STAKE {
        Some(ArenaError::InvalidAmount)
    } else {
        None
    }
}

/// The capacity an arena enforces.
pub open spec fn capacity_of(core: ArenaCore) -> u32 {
    match core.capacity {
        Some(c) => c,
        None => MAX_ARENA_PARTICIPANTS,
    }
}

/// `i` is the first place where metadata of arena `arena_id` is stored.
pub open spec fn first_metadata_at(m: Seq<ArenaMetadata>, arena_id: u64, i: int) -> bool {
    &&& 0 <= i < m.len()
    &&& m[i].arena_id == arena_id
    &&& forall|j: int| 0 <= j < i ==> (#[trigger] m[j]).arena_id != arena_id
}

/// No metadata of arena `arena_id` is stored.
pub open spec fn no_metadata(m: Seq<ArenaMetadata>, arena_id: u64) -> bool {
    forall|j: int| 0 <= j < m.len() ==> (#[trigger] m[j]).arena_id != arena_id
}

/// `after` is `before` with `m` stored as the metadata of `arena_id`: it replaces
/// the record of that id, or is added at the end when there is none.
pub open spec fn metadata_written(before: Seq<ArenaMetadata>, after: Seq<ArenaMetadata>, arena_id: u64, m: ArenaMetadata) -> bool {
    &&& forall|i: int| first_metadata_at(before, arena_id, i) ==> after == before.update(i, m)
    &&& no_metadata(before, arena_id) ==> after == before.push(m)
}

/// The storage right after a successful configuration with these settings.
pub open spec fn configured_core(core: ArenaCore, round_speed_in_ledgers: u32, required_stake_amount: i128, join_deadline: u64) -> ArenaCore {
    ArenaCore {
        config: Some(ArenaConfig {
            round_speed_in_ledgers,
            round_duration_seconds: 0,
            required_stake_amount,
            max_rounds: DEFAULT_MAX_ROUNDS,
            join_deadline,
        }),
        round: Some(zero_round()),
        state: ArenaState::Pending,
        ..core
    }
}

/// The description is longer than allowed.
pub open spec fn description_too_long(d: Option<Vec<u8>>) -> bool {
    match d {
        Some(d) => d@.len() > MAX_DESCRIPTION_LEN,
        None => false,
    }
}

/// Two metadata records hold the same values.
pub open spec fn same_metadata(a: ArenaMetadata, b: ArenaMetadata) -> bool {
    &&& a.arena_id == b.arena_id
    &&& a.name@ == b.name@
    &&& match (a.description, b.description) {
        (Some(x), Some(y)) => x@ == y@,
        (None, None) => true,
        _ => false,
    }
    &&& a.host == b.host
    &&& a.created_at == b.created_at
}

/// Where the metadata of arena `arena_id` is stored.
fn find_metadata(m: &Vec<ArenaMetadata>, arena_id: u64) -> (r: Option<usize>)
    ensures
        match r {
            Some(i) => first_metadata_at(m@, arena_id, i as int),
            None => no_metadata(m@, arena_id),
        },
{
    let mut i: usize = 0;
    while i < m.len()
        invariant
            0 <= i <= m@.len(),
            forall|j: int| 0 <= j < i ==> (#[trigger] m@[j]).arena_id != arena_id,
        decreases m@.len() - i,
    {
        if m[i].arena_id == arena_id {
            return Some(i);
        }
        i = i + 1;
    }
    None
}

fn copy_bytes(v: &Vec<u8>) -> (r: Vec<u8>)
    ensures
        r@ == v@,
{
    let mut r: Vec<u8> = Vec::new();
    let mut i: usize = 0;
    while i < v.len()
        invariant
            0 <= i <= v@.len(),
            r@ == v@.take(i as int),
        decreases v@.len() - i,
    {
        r.push(v[i]);
        assert(v@.take(i + 1) =~= v@.take(i as int).push(v@[i as int]));
        i = i + 1;
    }
    assert(v@.take(v@.len() as int) =~= v@);
    r
}

impl ArenaContract {
    /// An arena with empty storage.
    pub fn new() -> (a: Self)
        ensures
            a.wf(),
            a.core == empty_core(),
            a.players@.len() == 0,
            a.history@.len() == 0,
            a.metadata@.len() == 0,
    {
        ArenaContract {
            core: ArenaCore {
                admin: None,
                factory: None,
                arena_id: None,
                config: None,
                round: None,
                state: ArenaState::Pending,
                paused: false,
                token: None,
                capacity: None,
                prize_pool: 0,
                survivor_count: 0,
                cancelled: false,
                finished: false,
                winner_set: false,
                yield_earned: 0,
                upgrade: UpgradeSlot::empty(),
            },
            players: Vec::new(),
            history: Vec::new(),
            metadata: Vec::new(),
        }
    }

    /// Records the administrator of a fresh contract.
    pub fn initialize(&mut self, admin: Addr)
        requires
            old(self).wf(),
            old(self).core.admin is None,
        ensures
            final(self).wf(),
            lifecycle_step(old(self).core.state, final(self).core.state),
            final(self).core == (ArenaCore { admin: Some(admin), ..old(self).core }),
            final(self).players == old(self).players,
            final(self).history == old(self).history,
            final(self).metadata == old(self).metadata,
    {
        self.core.admin = Some(admin);
    }

    /// The administrator.
    pub fn admin(&self) -> (a: Addr)
        requires
            self.core.admin is Some,
        ensures
            self.core.admin == Some(a),
    {
        self.core.admin.unwrap()
    }

    /// Hands administration to `new_admin`.
    pub fn set_admin(&mut self, new_admin: Addr)
        requires
            old(self).wf(),
        ensures
            final(self).wf(),
            lifecycle_step(old(self).core.state, final(self).core.state),
            final(self).core == (ArenaCore { admin: Some(new_admin), ..old(self).core }),
            final(self).players == old(self).players,
            final(self).history == old(self).history,
            final(self).metadata == old(self).metadata,
    {
        self.core.admin = Some(new_admin);
    }

    /// Links the arena to the factory that created it, once.
    pub fn init_factory(&mut self, factory: Addr, _creator: Addr)
        requires
            old(self).wf(),
            old(self).core.factory is None,
        ensures
            final(self).wf(),
            lifecycle_step(old(self).core.state, final(self).core.state),
            final(self).core == (ArenaCore { factory: Some(factory), ..old(self).core }),
            final(self).players == old(self).players,
            final(self).history == old(self).history,
            final(self).metadata == old(self).metadata,
    {
        self.core.factory = Some(factory);
    }

    /// Configures the arena: round speed, stake, and join deadline.
    pub fn init(
        &mut self,
        round_speed_in_ledgers: u32,
        required_stake_amount: i128,
        join_deadline: u64,
        ledger: Ledger,
    ) -> (r: Result<Vec<Effect>, ArenaError>)
        requires
            old(self).wf(),
            old(self).core.config is None ==> ledger.timestamp + MIN_JOIN_WINDOW_SECONDS <= u64::MAX,
            old(self).core.config is None && join_deadline >= ledger.timestamp + MIN_JOIN_WINDOW_SECONDS
                ==> ledger.timestamp + MAX_JOIN_WINDOW_SECONDS <= u64::MAX,
        ensures
            final(self).wf(),
            lifecycle_step(old(self).core.state, final(self).core.state),
            match r {
                Err(e) => init_error(old(self).core, round_speed_in_ledgers, required_stake_amount, join_deadline,
                    ledger.timestamp) == Some(e) && *final(self) == *old(self),
                Ok(effects) => {
                    &&& init_error(old(self).core, round_speed_in_ledgers, required_stake_amount, join_deadline,
                        ledger.timestamp) is None
                    &&& final(self).core == configured_core(old(self).core, round_speed_in_ledgers,
                        required_stake_amount, join_deadline)
                    &&& effects@ == state_change_effects(old(self).core.state, ArenaState::Pending,
                        old(self).core.factory, old(self).core.arena_id)
                    &&& final(self).players == old(self).players
                    &&& final(self).history == old(self).history
                    &&& final(self).metadata == old(self).metadata
                },
            },
    {
        if self.core.config.is_some() {
            return Err(ArenaError::AlreadyInitialized);
        }
        let now = ledger.timestamp;
        if join_deadline < now + MIN_JOIN_WINDOW_SECONDS {
            return Err(ArenaError::DeadlineTooSoon);
        }
        if join_deadline > now + MAX_JOIN_WINDOW_SECONDS {
            return Err(ArenaError::DeadlineTooFar);
        }
        if round_speed_in_ledgers == 0 || round_speed_in_ledgers > MAX_SPEED_LEDGERS {
            return Err(ArenaError::InvalidRoundSpeed);
        }
        if required_stake_amount < MIN_REQUIRED_STAKE {
            return Err(ArenaError::InvalidAmount);
        }
        self.core.config = Some(ArenaConfig {
            round_speed_in_ledgers,
            round_duration_seconds: 0,
            required_stake_amount,
            max_rounds: DEFAULT_MAX_ROUNDS,
            join_deadline,
        });
        self.core.round = Some(RoundState {
            round_number: 0,
            round_start_ledger: 0,
            round_deadline_ledger: 0,
            round_start: 0,
            round_deadline: 0,
            active: false,
            total_submissions: 0,
            timed_out: false,
            finished: false,
        });
        let mut effects: Vec<Effect> = Vec::new();
        set_state(&mut self.core, ArenaState::Pending, &mut effects);
        assert(effects@ =~= state_change_effects(old(self).core.state, ArenaState::Pending,
            old(self).core.factory, old(self).core.arena_id));
        Ok(effects)
    }

    /// Stops the guarded operations.
    pub fn pause(&mut self) -> (effects: Vec<Effect>)
        requires
            old(self).wf(),
        ensures
            final(self).wf(),
            lifecycle_step(old(self).core.state, final(self).core.state),
            final(self).core == (ArenaCore { paused: true, ..old(self).core }),
            effects@ == seq![Effect::Emit(Event::Paused)],
            final(self).players == old(self).players,
            final(self).history == old(self).history,
            final(self).metadata == old(self).metadata,
    {
        self.core.paused = true;
        let mut effects: Vec<Effect> = Vec::new();
        effects.push(Effect::Emit(Event::Paused));
        assert(effects@ =~= seq![Effect::Emit(Event::Paused)]);
        effects
    }

    /// Resumes the guarded operations.
    pub fn unpause(&mut self) -> (effects: Vec<Effect>)
        requires
            old(self).wf(),
        ensures
            final(self).wf(),
            lifecycle_step(old(self).core.state, final(self).core.state),
            final(self).core == (ArenaCore { paused: false, ..old(self).core }),
            effects@ == seq![Effect::Emit(Event::Unpaused)],
            final(self).players == old(self).players,
            final(self).history == old(self).history,
            final(self).metadata == old(self).metadata,
    {
        self.core.paused = false;
        let mut effects: Vec<Effect> = Vec::new();
        effects.push(Effect::Emit(Event::Unpaused));
        assert(effects@ =~= seq![Effect::Emit(Event::Unpaused)]);
        effects
    }

    pub fn is_paused(&self) -> (r: bool)
        ensures
            r == self.core.paused,
    {
        self.core.paused
    }

    /// The pause guard of the guarded operations.
    pub fn require_not_paused(&self) -> (r: Result<(), ArenaError>)
        ensures
            r == (if self.core.paused { Err(ArenaError::Paused) } else { Ok::<(), ArenaError>(()) }),
    {
        if self.core.paused {
            Err(ArenaError::Paused)
        } else {
            Ok(())
        }
    }

    /// Sets the stake token, while nobody has joined and the pool is empty.
    pub fn set_token(&mut self, token: Addr) -> (r: Result<(), ArenaError>)
        requires
            old(self).wf(),
        ensures
            final(self).wf(),
            lifecycle_step(old(self).core.state, final(self).core.state),
            (old(self).core.survivor_count > 0 || old(self).core.prize_pool > 0) ==> r == Err::<(), ArenaError>(
                ArenaError::TokenConfigurationLocked) && *final(self) == *old(self),
            !(old(self).core.survivor_count > 0 || old(self).core.prize_pool > 0) ==> r is Ok
                && final(self).core == (ArenaCore { token: Some(token), ..old(self).core })
                && final(self).players == old(self).players && final(self).history == old(self).history
                && final(self).metadata == old(self).metadata,
    {
        if self.core.survivor_count > 0 || self.core.prize_pool > 0 {
            return Err(ArenaError::TokenConfigurationLocked);
        }
        self.core.token = Some(token);
        Ok(())
    }

    /// Sets how many players may join.
    pub fn set_capacity(&mut self, capacity: u32) -> (r: Result<(), ArenaError>)
        requires
            old(self).wf(),
        ensures
            final(self).wf(),
            lifecycle_step(old(self).core.state, final(self).core.state),
            !(MIN_ARENA_PARTICIPANTS <= capacity <= MAX_ARENA_PARTICIPANTS) ==> r == Err::<(), ArenaError>(
                ArenaError::InvalidCapacity) && *final(self) == *old(self),
            MIN_ARENA_PARTICIPANTS <= capacity <= MAX_ARENA_PARTICIPANTS ==> r is Ok
                && final(self).core == (ArenaCore { capacity: Some(capacity), ..old(self).core })
                && final(self).players == old(self).players && final(self).history == old(self).history
                && final(self).metadata == old(self).metadata,
    {
        if capacity < MIN_ARENA_PARTICIPANTS || capacity > MAX_ARENA_PARTICIPANTS {
            return Err(ArenaError::InvalidCapacity);
        }
        self.core.capacity = Some(capacity);
        Ok(())
    }

    /// Changes the round limit of a configured arena.
    pub fn set_max_rounds(&mut self, max_rounds: u32) -> (r: Result<(), ArenaError>)
        requires
            old(self).wf(),
        ensures
            final(self).wf(),
            lifecycle_step(old(self).core.state, final(self).core.state),
            !(MIN_MAX_ROUNDS <= max_rounds <= MAX_MAX_ROUNDS) ==> r == Err::<(), ArenaError>(
                ArenaError::InvalidMaxRounds) && *final(self) == *old(self),
            (MIN_MAX_ROUNDS <= max_rounds <= MAX_MAX_ROUNDS && old(self).core.config is None) ==> r
                == Err::<(), ArenaError>(ArenaError::NotInitialized) && *final(self) == *old(self),
            old(self).core.config matches Some(c) ==> MIN_MAX_ROUNDS <= max_rounds <= MAX_MAX_ROUNDS ==> r is Ok
                && final(self).core == (ArenaCore { config: Some(ArenaConfig { max_rounds, ..c }), ..old(self).core })
                && final(self).players == old(self).players && final(self).history == old(self).history
                && final(self).metadata == old(self).metadata,
    {
        if max_rounds < MIN_MAX_ROUNDS || max_rounds > MAX_MAX_ROUNDS {
            return Err(ArenaError::InvalidMaxRounds);
        }
        match self.core.config {
            None => Err(ArenaError::NotInitialized),
            Some(cfg) => {
                self.core.config = Some(ArenaConfig { max_rounds, ..cfg });
                Ok(())
            },
        }
    }

    pub fn is_cancelled(&self) -> (r: bool)
        ensures
            r == self.core.cancelled,
    {
        self.core.cancelled
    }

    /// The join deadline of a configured arena.
    pub fn get_join_deadline(&self) -> (r: u64)
        requires
            self.core.config is Some,
        ensures
            r == self.core.config.unwrap().join_deadline,
    {
        self.core.config.unwrap().join_deadline
    }

    pub fn get_config(&self) -> (r: Result<ArenaConfig, ArenaError>)
        ensures
            r == (match self.core.config {
                Some(c) => Ok(c),
                None => Err(ArenaError::NotInitialized),
            }),
    {
        match self.core.config {
            Some(c) => Ok(c),
            None => Err(ArenaError::NotInitialized),
        }
    }

    pub fn get_round(&self) -> (r: Result<RoundState, ArenaError>)
        ensures
            r == (match self.core.round {
                Some(c) => Ok(c),
                None => Err(ArenaError::NotInitialized),
            }),
    {
        match self.core.round {
            Some(c) => Ok(c),
            None => Err(ArenaError::NotInitialized),
        }
    }

    /// The arena's lifecycle state.
    pub fn state(&self) -> (r: ArenaState)
        ensures
            r == self.core.state,
    {
        self.core.state
    }

    /// Stores the metadata of arena `arena_id` (replacing earlier metadata of that
    /// id) and remembers `arena_id` as this arena's id.
    pub fn set_metadata(
        &mut self,
        arena_id: u64,
        name: Vec<u8>,
        description: Option<Vec<u8>>,
        host: Addr,
        ledger: Ledger,
    ) -> (r: Result<(), ArenaError>)
        requires
            old(self).wf(),
        ensures
            final(self).wf(),
            lifecycle_step(old(self).core.state, final(self).core.state),
            name@.len() == 0 ==> r == Err::<(), ArenaError>(ArenaError::NameEmpty) && *final(self) == *old(self),
            name@.len() > MAX_NAME_LEN ==> r == Err::<(), ArenaError>(ArenaError::NameTooLong) && *final(self)
                == *old(self),
            (0 < name@.len() <= MAX_NAME_LEN && description_too_long(description))
                ==> r == Err::<(), ArenaError>(ArenaError::DescriptionTooLong) && *final(self) == *old(self),
            (0 < name@.len() <= MAX_NAME_LEN && !description_too_long(description))
                ==> {
                let m = ArenaMetadata { arena_id, name, description, host, created_at: ledger.timestamp };
                &&& r is Ok
                &&& final(self).core == (ArenaCore { arena_id: Some(arena_id), ..old(self).core })
                &&& final(self).players == old(self).players
                &&& final(self).history == old(self).history
                &&& metadata_written(old(self).metadata@, final(self).metadata@, arena_id, m)
            },
    {
        if name.len() == 0 {
            return Err(ArenaError::NameEmpty);
        }
        if name.len() > MAX_NAME_LEN {
            return Err(ArenaError::NameTooLong);
        }
        let too_long = match &description {
            Some(d) => d.len() > MAX_DESCRIPTION_LEN,
            None => false,
        };
        if too_long {
            return Err(ArenaError::DescriptionTooLong);
        }
        let meta = ArenaMetadata { arena_id, name, description, host, created_at: ledger.timestamp };
        match find_metadata(&self.metadata, arena_id) {
            Some(i) => {
                self.metadata.set(i, meta);
            },
            None => {
                self.metadata.push(meta);
            },
        }
        self.core.arena_id = Some(arena_id);
        Ok(())
    }

    /// The metadata stored for arena `arena_id`.
    pub fn get_metadata(&self, arena_id: u64) -> (r: Option<ArenaMetadata>)
        ensures
            forall|i: int| first_metadata_at(self.metadata@, arena_id, i)
                ==> (r matches Some(m) && same_metadata(m, self.metadata@[i])),
            no_metadata(self.metadata@, arena_id) ==> r is None,
    {
        match find_metadata(&self.metadata, arena_id) {
            Some(i) => {
                let m = &self.metadata[i];
                let description = match &m.description {
                    Some(d) => Some(copy_bytes(d)),
                    None => None,
                };
                Some(ArenaMetadata {
                    arena_id: m.arena_id,
                    name: copy_bytes(&m.name),
                    description,
                    host: m.host,
                    created_at: m.created_at,
                })
            },
            None => None,
        }
    }
}

} // verus!
