//! The simulation engine: processes commands, runs the tick rules, emits events.
//!
//! Deterministic (same inputs, same outputs), event-sourced (every change is
//! reported as an event) and transactional (a failed command changes nothing).
use vstd::prelude::*;

use crate::commands::{clone_opt_string, CreateWorldCmd, CreateZoneCmd, EntityProperties, SimCommand, SpawnEntityCmd};
use crate::errors::ApiError;
use crate::events::{DespawnReason, EventData, SimEvent};
use crate::keyed::{key_seq, lemma_keyed_index, lemma_sorted_keys, sorted_keys, Keyed};
use crate::replay::set_entity;
use crate::text::{origin_name_chars, world_id_chars};
use crate::types::{EntityId, EntityKind, EntityState, EventId, RngSeed, SimTime, Tick, ZoneId};
use crate::validation::{command_errors, validate_sim_command};
use crate::world::{Entity, World, WorldView, Zone, ZoneView, CURRENT_FORMAT_VERSION};

verus! {

/// A probability, in parts per million.
#[derive(Clone, Copy, Debug, PartialEq, Eq, Structural)]
pub struct Probability {
    pub parts_per_million: u32,
}

/// Chance per tick that a resource loses one unit (1%).
pub open spec fn resource_depletion() -> Probability {
    Probability { parts_per_million: 10000 }
}

/// Chance per tick that a creature loses one health point (0.5%).
pub open spec fn creature_degradation() -> Probability {
    Probability { parts_per_million: 5000 }
}

/// Injected deterministic random stream. The stream is a function of its
/// seed and state: every draw is `draw(seed, state, p)`.
pub trait IRng {
    spec fn spec_seed(&self) -> RngSeed;

    spec fn spec_state(&self) -> u64;

    /// Outcome of a Bernoulli draw with probability `p`, and the next state.
    spec fn draw(seed: RngSeed, state: u64, p: Probability) -> (bool, u64);

    fn seed(&self) -> (r: RngSeed)
        ensures
            r == self.spec_seed(),
    ;

    fn state(&self) -> (r: u64)
        ensures
            r == self.spec_state(),
    ;

    /// Restores the state, keeping the seed.
    fn restore(&mut self, state: u64)
        ensures
            final(self).spec_seed() == old(self).spec_seed(),
            final(self).spec_state() == state,
    ;

    /// Restores both seed and state.
    fn restore_seeded(&mut self, seed: RngSeed, state: u64)
        ensures
            final(self).spec_seed() == seed,
            final(self).spec_state() == state,
    ;

    fn next_u32(&mut self) -> (r: u32)
        ensures
            final(self).spec_seed() == old(self).spec_seed(),
    ;

    fn next_u64(&mut self) -> (r: u64)
        ensures
            final(self).spec_seed() == old(self).spec_seed(),
    ;

    /// True with probability `p`.
    fn chance(&mut self, p: Probability) -> (r: bool)
        ensures
            final(self).spec_seed() == old(self).spec_seed(),
            (r, final(self).spec_state()) == Self::draw(old(self).spec_seed(), old(self).spec_state(), p),
    ;
}

/// Injected simulation clock.
pub trait ISimClock {
    spec fn spec_tick(&self) -> Tick;

    fn current_tick(&self) -> (r: Tick)
        ensures
            r == self.spec_tick(),
    ;

    fn sim_time(&self) -> (r: SimTime)
        ensures
            r == SimTime::spec_from_ticks(self.spec_tick()),
    ;

    fn advance(&mut self) -> (r: Tick)
        ensures
            r == final(self).spec_tick(),
    ;

    fn set_tick(&mut self, tick: Tick)
        ensures
            final(self).spec_tick() == tick,
    ;

    fn should_tick(&self) -> bool;
}

/// Commands that stay inside the machine's counters, judged on the state: a
/// spawn needs a free entity id, a tick needs the entity count to fit the
/// tick report.
pub open spec fn view_within_limits(s: SimState, cmd: SimCommand) -> bool {
    match s.world {
        Some(w) => match cmd {
            SimCommand::SpawnEntity(_) => w.next_entity_id < u64::MAX,
            SimCommand::Tick => sorted_keys(w.entities).len() < u32::MAX,
            SimCommand::TickN(_) => sorted_keys(w.entities).len() < u32::MAX,
            _ => true,
        },
        None => true,
    }
}

/// Abstract state of a simulation: the world (if any), the random stream's
/// seed and state, and the clock.
pub struct SimState {
    pub world: Option<WorldView>,
    pub seed: RngSeed,
    pub rng: u64,
    pub clock: Tick,
}

/// Running state of one tick's rules.
pub struct TickState {
    pub w: WorldView,
    pub rng: u64,
    pub events: Seq<SimEvent>,
    pub processed: nat,
}

pub open spec fn ev(tick: Tick, data: EventData) -> SimEvent {
    SimEvent { event_id: EventId(0), tick, data }
}

/// The rules for one entity: a resource with stock loses a unit with
/// probability 1%, a creature with health loses a point with probability 0.5%;
/// either dies when it reaches zero.
pub open spec fn rule_step<R: IRng>(seed: RngSeed, st: TickState, id: int) -> TickState {
    if !st.w.entities.contains_key(id) {
        st
    } else {
        let e = st.w.entities[id];
        let t = st.w.current_tick;
        let st2 = match e.kind {
            EntityKind::Resource => match e.properties.amount {
                Some(amt) => if amt > 0 {
                    let (hit, r2) = R::draw(seed, st.rng, resource_depletion());
                    if hit {
                        let n = (amt - 1) as u32;
                        let e1 = Entity { properties: EntityProperties { amount: Some(n), ..e.properties }, ..e };
                        let evs = st.events.push(ev(t, EventData::ResourceDepleted { entity_id: e.id, amount: 1, remaining: n }));
                        if n == 0 {
                            TickState {
                                w: set_entity(st.w, Entity { state: EntityState::Dead, ..e1 }),
                                rng: r2,
                                events: evs.push(ev(t, EventData::EntityStateChanged { entity_id: e.id, old_state: e.state, new_state: EntityState::Dead })),
                                processed: st.processed,
                            }
                        } else {
                            TickState { w: set_entity(st.w, e1), rng: r2, events: evs, processed: st.processed }
                        }
                    } else {
                        TickState { rng: r2, ..st }
                    }
                } else {
                    st
                },
                None => st,
            },
            EntityKind::Creature => match e.properties.health {
                Some(hp) => if hp > 0 {
                    let (hit, r2) = R::draw(seed, st.rng, creature_degradation());
                    if hit {
                        let n = (hp - 1) as u32;
                        let e1 = Entity { properties: EntityProperties { health: Some(n), ..e.properties }, ..e };
                        let evs = st.events.push(ev(t, EventData::EntityDegraded { entity_id: e.id, old_health: hp, new_health: n }));
                        if n == 0 {
                            TickState {
                                w: set_entity(st.w, Entity { state: EntityState::Dead, ..e1 }),
                                rng: r2,
                                events: evs.push(ev(t, EventData::EntityStateChanged { entity_id: e.id, old_state: e.state, new_state: EntityState::Dead })),
                                processed: st.processed,
                            }
                        } else {
                            TickState { w: set_entity(st.w, e1), rng: r2, events: evs, processed: st.processed }
                        }
                    } else {
                        TickState { rng: r2, ..st }
                    }
                } else {
                    st
                },
                None => st,
            },
            _ => st,
        };
        TickState { processed: st2.processed + 1, ..st2 }
    }
}

/// The rules applied to the given entities in order.
pub open spec fn rules_fold<R: IRng>(seed: RngSeed, st: TickState, ids: Seq<int>) -> TickState
    decreases ids.len(),
{
    if ids.len() == 0 {
        st
    } else {
        rule_step::<R>(seed, rules_fold::<R>(seed, st, ids.drop_last()), ids.last())
    }
}

/// Removal of dead entities, in order.
pub open spec fn cleanup_fold(st: TickState, ids: Seq<int>) -> TickState
    decreases ids.len(),
{
    if ids.len() == 0 {
        st
    } else {
        let s1 = cleanup_fold(st, ids.drop_last());
        let id = ids.last();
        if s1.w.entities.contains_key(id) {
            TickState {
                w: s1.w.without_entity(EntityId(id as u64)),
                events: s1.events.push(ev(s1.w.current_tick, EventData::EntityDespawned { entity_id: EntityId(id as u64), reason: DespawnReason::Death })),
                ..s1
            }
        } else {
            s1
        }
    }
}

/// Keys whose entity is in the given state, in ascending order.
pub open spec fn keys_in_state(keys: Seq<int>, m: Map<int, Entity>, state: EntityState) -> Seq<int>
    decreases keys.len(),
{
    if keys.len() == 0 {
        keys
    } else {
        let r = keys_in_state(keys.drop_last(), m, state);
        if m[keys.last()].state == state {
            r.push(keys.last())
        } else {
            r
        }
    }
}

pub open spec fn active_keys(w: WorldView) -> Seq<int> {
    keys_in_state(sorted_keys(w.entities), w.entities, EntityState::Active)
}

pub open spec fn dead_keys(w: WorldView) -> Seq<int> {
    keys_in_state(sorted_keys(w.entities), w.entities, EntityState::Dead)
}

/// One tick: advance the clock, run the rules over the active entities in
/// ascending id order, every 100th tick remove the dead, checkpoint the random
/// state into the world, and report `TickProcessed` last.
pub open spec fn spec_tick<R: IRng>(seed: RngSeed, rng: u64, w: WorldView) -> (WorldView, u64, Seq<SimEvent>) {
    let w1 = w.advanced();
    let t = w1.current_tick;
    let st1 = rules_fold::<R>(seed, TickState { w: w1, rng, events: seq![], processed: 0 }, active_keys(w1));
    let st2 = if t.0 % 100 == 0 { cleanup_fold(st1, dead_keys(st1.w)) } else { st1 };
    let w3 = WorldView { rng_state: st2.rng, ..st2.w };
    (
        w3,
        st2.rng,
        st2.events.push(ev(t, EventData::TickProcessed {
            tick: t,
            sim_time: w1.sim_time,
            entities_processed: st2.processed as u32,
            rng_state_after: Some(st2.rng),
        })),
    )
}

/// `n` ticks in a row.
pub open spec fn spec_ticks<R: IRng>(seed: RngSeed, rng: u64, w: WorldView, n: nat) -> (WorldView, u64, Seq<SimEvent>)
    decreases n,
{
    if n == 0 {
        (w, rng, seq![])
    } else {
        let (w1, r1, e1) = spec_ticks::<R>(seed, rng, w, (n - 1) as nat);
        let (w2, r2, e2) = spec_tick::<R>(seed, r1, w1);
        (w2, r2, e1 + e2)
    }
}

/// Outcome of a command on a state with a loaded world, for every command but
/// world creation.
pub open spec fn spec_world_command<R: IRng>(s: SimState, w: WorldView, cmd: SimCommand) -> Result<(SimState, Seq<SimEvent>), ApiError> {
    match cmd {
        SimCommand::Tick => {
            let (w2, r2, evs) = spec_tick::<R>(s.seed, s.rng, w);
            Ok((SimState { world: Some(w2), rng: r2, clock: w2.current_tick, ..s }, evs))
        },
        SimCommand::TickN(n) => {
            let (w2, r2, evs) = spec_ticks::<R>(s.seed, s.rng, w, n as nat);
            Ok((SimState { world: Some(w2), rng: r2, clock: if n == 0 { s.clock } else { w2.current_tick }, ..s }, evs))
        },
        SimCommand::SpawnEntity(c) => {
            if !w.zones.contains_key(c.position.zone.0 as int) {
                Err(ApiError::ZoneNotFound(c.position.zone))
            } else {
                let id = EntityId(w.next_entity_id);
                let w1 = WorldView { next_entity_id: (w.next_entity_id + 1) as u64, ..w };
                let e = Entity { id, kind: c.kind, state: EntityState::Active, position: c.position, created_at: w.current_tick, properties: c.properties };
                Ok((
                    SimState { world: Some(w1.with_entity(e)), ..s },
                    seq![ev(w.current_tick, EventData::EntitySpawned { entity_id: id, kind: c.kind, position: c.position, properties: c.properties })],
                ))
            }
        },
        SimCommand::DespawnEntity(id) => {
            if !w.entities.contains_key(id.0 as int) {
                Err(ApiError::EntityNotFound(id))
            } else {
                Ok((
                    SimState { world: Some(w.without_entity(id)), ..s },
                    seq![ev(w.current_tick, EventData::EntityDespawned { entity_id: id, reason: DespawnReason::Command })],
                ))
            }
        },
        SimCommand::CreateZone(c) => {
            if w.zones.contains_key(c.zone_id.0 as int) {
                Err(ApiError::ZoneAlreadyExists(c.zone_id))
            } else {
                Ok((
                    SimState {
                        world: Some(WorldView {
                            zones: w.zones.insert(c.zone_id.0 as int, ZoneView { id: c.zone_id, name: c.name, loaded: true, entities: Seq::empty() }),
                            ..w
                        }),
                        ..s
                    },
                    seq![ev(w.current_tick, EventData::ZoneCreated { zone_id: c.zone_id, name: c.name })],
                ))
            }
        },
        SimCommand::CreateWorld(_) => Err(ApiError::WorldAlreadyExists(w.meta.world_id)),
    }
}

/// The world a creation command produces: tick 0, no entities, the loaded
/// origin zone named "Origin", id `world_<seed>`.
pub open spec fn created_world(v: WorldView, c: CreateWorldCmd) -> bool {
    &&& v.meta.world_id@ == world_id_chars(c.seed.0)
    &&& v.meta.name == c.name
    &&& v.meta.seed == c.seed
    &&& v.meta.current_tick.0 == 0
    &&& v.meta.sim_time.units == 0
    &&& v.meta.created_tick.0 == 0
    &&& v.meta.snapshot_tick.0 == 0
    &&& v.meta.last_event_id.0 == 0
    &&& v.meta.format_version == CURRENT_FORMAT_VERSION
    &&& v.current_tick.0 == 0
    &&& v.sim_time.units == 0
    &&& v.rng_state == c.seed.0
    &&& v.next_entity_id == 1
    &&& v.entities == Map::<int, Entity>::empty()
    &&& v.zones.dom() == set![0int]
    &&& v.zones[0].id.0 == 0
    &&& v.zones[0].name matches Some(n) && n@ == origin_name_chars()
    &&& v.zones[0].loaded
    &&& v.zones[0].entities.len() == 0
}

/// The events a creation command reports: `WorldCreated`, then the origin
/// zone's `ZoneCreated`, both at tick 0.
pub open spec fn creation_events(evs: Seq<SimEvent>, v: WorldView, c: CreateWorldCmd) -> bool {
    &&& evs.len() == 2
    &&& evs[0] == ev(Tick(0), EventData::WorldCreated { world_id: v.meta.world_id, name: c.name, seed: c.seed })
    &&& evs[1].event_id.0 == 0
    &&& evs[1].tick.0 == 0
    &&& evs[1].data matches EventData::ZoneCreated { zone_id, name } && zone_id.0 == 0 && name == v.zones[0].name
}

/// Whether a successful command led from `s` to `s2` reporting `evs`.
pub open spec fn step_ok<R: IRng>(s: SimState, cmd: SimCommand, s2: SimState, evs: Seq<SimEvent>) -> bool {
    match cmd {
        SimCommand::CreateWorld(c) => {
            &&& s.world is None
            &&& s2.world matches Some(v) && created_world(v, c) && creation_events(evs, v, c)
            &&& s2.seed == c.seed
            &&& s2.rng == c.seed.0
            &&& s2.clock.0 == 0
        },
        _ => match s.world {
            Some(w) => spec_world_command::<R>(s, w, cmd) == Ok::<(SimState, Seq<SimEvent>), ApiError>((s2, evs)),
            None => false,
        },
    }
}

/// Whether a command on `s` fails with `e` (after passing validation).
pub open spec fn step_err<R: IRng>(s: SimState, cmd: SimCommand, e: ApiError) -> bool {
    match s.world {
        Some(w) => spec_world_command::<R>(s, w, cmd) == Err::<(SimState, Seq<SimEvent>), ApiError>(e),
        None => !(cmd is CreateWorld) && e == ApiError::NoWorldLoaded,
    }
}

/// Ids of the entities in the given state, in table (ascending id) order.
fn collect_ids_in_state(world: &World, state: EntityState) -> (ids: Vec<EntityId>)
    requires
        world.wf(),
    ensures
        ids@.map_values(|id: EntityId| id.0 as int) == keys_in_state(sorted_keys(world@.entities), world@.entities, state),
        ids@.len() <= world.entities@.len(),
{
    let ghost s = world.entities@;
    let ghost m = world@.entities;
    let mut ids: Vec<EntityId> = Vec::new();
    let mut i: usize = 0;
    while i < world.entities.len()
        invariant
            world.wf(),
            s == world.entities@,
            m == world@.entities,
            i <= s.len(),
            ids@.len() <= i,
            ids@.map_values(|id: EntityId| id.0 as int) == keys_in_state(key_seq(s).take(i as int), m, state),
        decreases s.len() - i,
    {
        proof {
            lemma_keyed_index(s, i as int);
            assert(key_seq(s).take(i as int + 1).drop_last() =~= key_seq(s).take(i as int));
            assert(key_seq(s).take(i as int + 1).last() == s[i as int].key());
        }
        if world.entities[i].state == state {
            ids.push(world.entities[i].id);
            proof {
                let prev = keys_in_state(key_seq(s).take(i as int), m, state);
                assert(ids@.map_values(|id: EntityId| id.0 as int) =~= prev.push(s[i as int].key()));
            }
        }
        i = i + 1;
    }
    proof {
        lemma_sorted_keys(s);
        assert(key_seq(s).take(s.len() as int) =~= key_seq(s));
    }
    ids
}

pub open spec fn id_keys(ids: Seq<EntityId>) -> Seq<int> {
    ids.map_values(|id: EntityId| id.0 as int)
}

/// Runs the tick rules over the given entities, in order.
fn apply_rules<R: IRng>(world: &mut World, rng: &mut R, events: &mut Vec<SimEvent>, ids: &Vec<EntityId>) -> (processed: u32)
    requires
        old(world).wf(),
        ids@.len() < u32::MAX,
    ensures
        final(world).wf(),
        final(world).entities@.len() == old(world).entities@.len(),
        final(rng).spec_seed() == old(rng).spec_seed(),
        ({
            let st = rules_fold::<R>(
                old(rng).spec_seed(),
                TickState { w: old(world)@, rng: old(rng).spec_state(), events: seq![], processed: 0 },
                id_keys(ids@),
            );
            &&& final(world)@ == st.w
            &&& final(rng).spec_state() == st.rng
            &&& final(events)@ == old(events)@ + st.events
            &&& processed as nat == st.processed
        }),
{
    let ghost seed = rng.spec_seed();
    let ghost st0 = TickState { w: world@, rng: rng.spec_state(), events: seq![], processed: 0 };
    let ghost ev0 = events@;
    let ghost keys = id_keys(ids@);
    let mut processed: u32 = 0;
    let mut k: usize = 0;
    while k < ids.len()
        invariant
            world.wf(),
            world.entities@.len() == old(world).entities@.len(),
            rng.spec_seed() == seed,
            ids@.len() < u32::MAX,
            k <= ids@.len(),
            keys == id_keys(ids@),
            processed <= k,
            ({
                let st = rules_fold::<R>(seed, st0, keys.take(k as int));
                &&& world@ == st.w
                &&& rng.spec_state() == st.rng
                &&& events@ == ev0 + st.events
                &&& processed as nat == st.processed
            }),
        decreases ids@.len() - k,
    {
        let ghost st = rules_fold::<R>(seed, st0, keys.take(k as int));
        proof {
            assert(keys.take(k as int + 1).drop_last() =~= keys.take(k as int));
            assert(keys.take(k as int + 1).last() == ids@[k as int].0 as int);
        }
        let ghost stn = rule_step::<R>(seed, st, ids@[k as int].0 as int);
        let id = ids[k];
        match world.find_entity(id) {
            None => {},
            Some(i) => {
                let kind = world.entities[i].kind;
                let amount = world.entities[i].properties.amount;
                let health = world.entities[i].properties.health;
                let tick = world.current_tick;
                let ghost e = world.entities@[i as int];
                match kind {
                    EntityKind::Resource => {
                        if let Some(amt) = amount {
                            if amt > 0 && rng.chance(Probability { parts_per_million: 10000 }) {
                                let n = amt - 1;
                                let mut e1 = world.entities[i].clone();
                                e1.properties.amount = Some(n);
                                world.put_entity_at(i, e1);
                                events.push(SimEvent::new(tick, EventData::ResourceDepleted { entity_id: id, amount: 1, remaining: n }));
                                if n == 0 {
                                    let mut e2 = world.entities[i].clone();
                                    let old_state = e2.state;
                                    e2.state = EntityState::Dead;
                                    world.put_entity_at(i, e2);
                                    events.push(SimEvent::new(tick, EventData::EntityStateChanged { entity_id: id, old_state, new_state: EntityState::Dead }));
                                }
                            }
                        }
                    },
                    EntityKind::Creature => {
                        if let Some(hp) = health {
                            if hp > 0 && rng.chance(Probability { parts_per_million: 5000 }) {
                                let n = hp - 1;
                                let mut e1 = world.entities[i].clone();
                                e1.properties.health = Some(n);
                                world.put_entity_at(i, e1);
                                events.push(SimEvent::new(tick, EventData::EntityDegraded { entity_id: id, old_health: hp, new_health: n }));
                                if n == 0 {
                                    let mut e2 = world.entities[i].clone();
                                    let old_state = e2.state;
                                    e2.state = EntityState::Dead;
                                    world.put_entity_at(i, e2);
                                    events.push(SimEvent::new(tick, EventData::EntityStateChanged { entity_id: id, old_state, new_state: EntityState::Dead }));
                                }
                            }
                        }
                    },
                    _ => {},
                }
                processed = processed + 1;
            },
        }
        proof {
            assert(world@ =~= stn.w);
            assert(events@ =~= ev0 + stn.events);
        }
        k = k + 1;
    }
    proof {
        assert(keys.take(ids@.len() as int) =~= keys);
    }
    processed
}

proof fn lemma_cleanup_keeps(st: TickState, ids: Seq<int>)
    ensures
        cleanup_fold(st, ids).rng == st.rng,
        cleanup_fold(st, ids).processed == st.processed,
    decreases ids.len(),
{
    if ids.len() > 0 {
        lemma_cleanup_keeps(st, ids.drop_last());
    }
}

/// Removes the given entities, reporting each removal as a death.
fn remove_dead(world: &mut World, events: &mut Vec<SimEvent>, ids: &Vec<EntityId>, Ghost(st0): Ghost<TickState>, Ghost(base): Ghost<Seq<SimEvent>>)
    requires
        old(world).wf(),
        st0.w == old(world)@,
        old(events)@ == base + st0.events,
    ensures
        final(world).wf(),
        final(world).entities@.len() <= old(world).entities@.len(),
        final(world)@ == cleanup_fold(st0, id_keys(ids@)).w,
        final(events)@ == base + cleanup_fold(st0, id_keys(ids@)).events,
{
    let ghost keys = id_keys(ids@);
    let mut k: usize = 0;
    while k < ids.len()
        invariant
            world.wf(),
            world.entities@.len() <= old(world).entities@.len(),
            k <= ids@.len(),
            keys == id_keys(ids@),
            world@ == cleanup_fold(st0, keys.take(k as int)).w,
            events@ == base + cleanup_fold(st0, keys.take(k as int)).events,
        decreases ids@.len() - k,
    {
        proof {
            assert(keys.take(k as int + 1).drop_last() =~= keys.take(k as int));
            assert(keys.take(k as int + 1).last() == ids@[k as int].0 as int);
        }
        let id = ids[k];
        let tick = world.current_tick;
        let ghost s1 = cleanup_fold(st0, keys.take(k as int));
        match world.remove_entity(id) {
            Some(_) => {
                events.push(SimEvent::new(tick, EventData::EntityDespawned { entity_id: id, reason: DespawnReason::Death }));
                proof {
                    assert(EntityId((id.0 as int) as u64) == id);
                    assert(events@ =~= base + cleanup_fold(st0, keys.take(k as int + 1)).events);
                }
            },
            None => {},
        }
        k = k + 1;
    }
    proof {
        assert(keys.take(ids@.len() as int) =~= keys);
    }
}

/// One tick of the world (see `spec_tick`).
fn tick_world<R: IRng>(world: &mut World, rng: &mut R, events: &mut Vec<SimEvent>)
    requires
        old(world).wf(),
        old(world).entities@.len() < u32::MAX,
    ensures
        final(world).wf(),
        final(world).entities@.len() <= old(world).entities@.len(),
        final(rng).spec_seed() == old(rng).spec_seed(),
        ({
            let (w3, r3, evs) = spec_tick::<R>(old(rng).spec_seed(), old(rng).spec_state(), old(world)@);
            &&& final(world)@ == w3
            &&& final(rng).spec_state() == r3
            &&& final(events)@ == old(events)@ + evs
        }),
{
    let ghost seed = rng.spec_seed();
    let ghost r0 = rng.spec_state();
    let ghost ev0 = events@;
    world.advance_tick();
    let tick = world.current_tick;
    let sim_time = world.sim_time;
    let ghost w1 = world@;
    let ids = collect_ids_in_state(world, EntityState::Active);
    let processed = apply_rules(world, rng, events, &ids);
    let ghost st1 = rules_fold::<R>(seed, TickState { w: w1, rng: r0, events: seq![], processed: 0 }, active_keys(w1));
    assert(world@ == st1.w);
    if tick.0 % 100 == 0 {
        let dead = collect_ids_in_state(world, EntityState::Dead);
        remove_dead(world, events, &dead, Ghost(st1), Ghost(ev0));
        proof {
            lemma_cleanup_keeps(st1, dead_keys(st1.w));
        }
    }
    let ghost st2 = if tick.0 % 100 == 0 { cleanup_fold(st1, dead_keys(st1.w)) } else { st1 };
    let rng_after = rng.state();
    world.rng_state = rng_after;
    events.push(SimEvent::new(tick, EventData::TickProcessed {
        tick,
        sim_time,
        entities_processed: processed,
        rng_state_after: Some(rng_after),
    }));
    proof {
        let (w3, r3, evs) = spec_tick::<R>(seed, r0, old(world)@);
        assert(world@ =~= w3);
        assert(events@ =~= ev0 + evs);
    }
}

/// Everything a command may change, saved so that a failed command can be
/// undone.
pub struct SimCheckpoint {
    world: Option<World>,
    rng_seed: RngSeed,
    rng_state: u64,
    clock_tick: Tick,
}

impl SimCheckpoint {
    pub closed spec fn saved(&self) -> SimState {
        SimState {
            world: match self.world {
                Some(w) => Some(w@),
                None => None,
            },
            seed: self.rng_seed,
            rng: self.rng_state,
            clock: self.clock_tick,
        }
    }

    pub closed spec fn wf(&self) -> bool {
        self.world matches Some(w) ==> w.wf()
    }
}

/// The simulation engine. Processes commands, runs tick logic, emits events.
pub struct Simulation<R: IRng, C: ISimClock> {
    world: Option<World>,
    rng: R,
    clock: C,
    pending_events: Vec<SimEvent>,
}

fn clone_world_opt(w: &Option<World>) -> (r: Option<World>)
    ensures
        match (r, *w) {
            (Some(a), Some(b)) => a@ == b@ && a.entities@ == b.entities@ && a.zone_views() == b.zone_views(),
            (None, None) => true,
            _ => false,
        },
{
    match w {
        Some(w) => Some(w.clone()),
        None => None,
    }
}

impl<R: IRng, C: ISimClock> Simulation<R, C> {
    /// The abstract state: world, random stream and clock.
    pub closed spec fn state(&self) -> SimState {
        SimState {
            world: match self.world {
                Some(w) => Some(w@),
                None => None,
            },
            seed: self.rng.spec_seed(),
            rng: self.rng.spec_state(),
            clock: self.clock.spec_tick(),
        }
    }

    /// The loaded world is well formed and no events are pending.
    pub closed spec fn wf(&self) -> bool {
        &&& self.world matches Some(w) ==> w.wf()
        &&& self.pending_events@.len() == 0
    }

    /// Commands that stay inside the machine's counters: a spawn needs a free
    /// entity id, a tick needs the entity count to fit the tick report.
    pub closed spec fn within_limits(&self, cmd: SimCommand) -> bool {
        match self.world {
            Some(w) => match cmd {
                SimCommand::SpawnEntity(_) => w.next_entity_id < u64::MAX,
                SimCommand::Tick => w.entities@.len() < u32::MAX,
                SimCommand::TickN(_) => w.entities@.len() < u32::MAX,
                _ => true,
            },
            None => true,
        }
    }

    /// A simulation with no world loaded.
    pub fn new(rng: R, clock: C) -> (r: Self)
        ensures
            r.wf(),
            forall|cmd: SimCommand| r.within_limits(cmd),
            r.state() == (SimState { world: None, seed: rng.spec_seed(), rng: rng.spec_state(), clock: clock.spec_tick() }),
    {
        Simulation { world: None, rng, clock, pending_events: Vec::new() }
    }

    /// Whether a command stays inside the machine's counters.
    pub fn fits_limits(&self, cmd: &SimCommand) -> (r: bool)
        ensures
            r == self.within_limits(*cmd),
            self.wf() ==> r == view_within_limits(self.state(), *cmd),
    {
        proof {
            if let Some(w) = &self.world {
                if self.wf() {
                    lemma_sorted_keys(w.entities@);
                }
            }
        }
        match &self.world {
            Some(w) => match cmd {
                SimCommand::SpawnEntity(_) => w.next_entity_id < u64::MAX,
                SimCommand::Tick => w.entities.len() < 4294967295usize,
                SimCommand::TickN(_) => w.entities.len() < 4294967295usize,
                _ => true,
            },
            None => true,
        }
    }

    pub fn has_world(&self) -> (r: bool)
        ensures
            r == self.state().world is Some,
    {
        self.world.is_some()
    }

    pub fn world(&self) -> (r: Option<&World>)
        requires
            self.wf(),
        ensures
            match r {
                Some(w) => self.state().world == Some(w@) && w.wf(),
                None => self.state().world is None,
            },
    {
        match &self.world {
            Some(w) => Some(w),
            None => None,
        }
    }

    /// Mutable access to the loaded world. Changes made through it bypass
    /// the event stream.
    pub fn world_mut(&mut self) -> (r: Option<&mut World>)
        ensures
            match r {
                Some(w) => {
                    &&& old(self).state().world == Some(w@)
                    &&& final(self).state() == (SimState { world: Some(final(w)@), ..old(self).state() })
                    &&& old(self).wf() ==> (final(self).wf() <==> final(w).wf())
                    &&& old(self).wf() ==> w.wf()
                },
                None => old(self).state().world is None && final(self).state() == old(self).state() && final(self).wf()
                    == old(self).wf(),
            },
    {
        match &mut self.world {
            Some(w) => Some(w),
            None => None,
        }
    }

    /// The world's tick, or 0 when no world is loaded.
    pub fn current_tick(&self) -> (r: Tick)
        ensures
            r == match self.state().world {
                Some(w) => w.current_tick,
                None => Tick(0),
            },
    {
        match &self.world {
            Some(w) => w.current_tick,
            None => Tick(0),
        }
    }

    pub fn rng(&self) -> (r: &R)
        ensures
            r.spec_seed() == self.state().seed,
            r.spec_state() == self.state().rng,
    {
        &self.rng
    }

    pub fn clock(&self) -> (r: &C)
        ensures
            r.spec_tick() == self.state().clock,
    {
        &self.clock
    }

    /// Saves everything a command may change.
    pub fn checkpoint(&self) -> (cp: SimCheckpoint)
        requires
            self.wf(),
        ensures
            cp.saved() == self.state(),
            cp.wf(),
    {
        SimCheckpoint {
            world: clone_world_opt(&self.world),
            rng_seed: self.rng.seed(),
            rng_state: self.rng.state(),
            clock_tick: self.clock.current_tick(),
        }
    }

    /// Puts back a saved state.
    pub fn restore_checkpoint(&mut self, cp: SimCheckpoint)
        requires
            cp.wf(),
        ensures
            final(self).state() == cp.saved(),
            final(self).wf(),
    {
        self.world = cp.world;
        self.rng.restore_seeded(cp.rng_seed, cp.rng_state);
        self.clock.set_tick(cp.clock_tick);
        self.pending_events = Vec::new();
    }

    /// Installs a world (for example a recovered one) and resumes its random
    /// stream and clock.
    pub fn load_world_state(&mut self, world: World)
        requires
            world.wf(),
        ensures
            final(self).wf(),
            final(self).state() == (SimState { world: Some(world@), seed: world.meta.seed, rng: world.rng_state, clock: world.current_tick }),
    {
        self.rng.restore_seeded(world.meta.seed, world.rng_state);
        self.clock.set_tick(world.current_tick);
        self.world = Some(world);
        self.pending_events = Vec::new();
    }

    fn cmd_tick(&mut self) -> (r: Result<(), ApiError>)
        requires
            old(self).world matches Some(w) ==> w.wf() && w.entities@.len() < u32::MAX,
        ensures
            match old(self).world {
                None => r == Err::<(), ApiError>(ApiError::NoWorldLoaded),
                Some(w) => {
                    let (w3, r3, evs) = spec_tick::<R>(old(self).rng.spec_seed(), old(self).rng.spec_state(), w@);
                    &&& r is Ok
                    &&& final(self).world matches Some(fw) && fw@ == w3 && fw.wf() && fw.entities@.len() <= w.entities@.len()
                    &&& final(self).rng.spec_seed() == old(self).rng.spec_seed()
                    &&& final(self).rng.spec_state() == r3
                    &&& final(self).clock.spec_tick() == w3.current_tick
                    &&& final(self).pending_events@ == old(self).pending_events@ + evs
                },
            },
    {
        let mut w = match self.world.take() {
            Some(w) => w,
            None => {
                return Err(ApiError::NoWorldLoaded);
            },
        };
        tick_world(&mut w, &mut self.rng, &mut self.pending_events);
        self.clock.set_tick(w.current_tick);
        self.world = Some(w);
        Ok(())
    }

    fn cmd_tick_n(&mut self, n: u32) -> (r: Result<(), ApiError>)
        requires
            old(self).world matches Some(w) ==> w.wf() && w.entities@.len() < u32::MAX,
        ensures
            final(self).world matches Some(fw) ==> fw.wf(),
            match old(self).world {
                None => n > 0 ==> r == Err::<(), ApiError>(ApiError::NoWorldLoaded),
                Some(w) => {
                    let (w3, r3, evs) = spec_ticks::<R>(old(self).rng.spec_seed(), old(self).rng.spec_state(), w@, n as nat);
                    &&& r is Ok
                    &&& final(self).state().world == Some(w3)
                    &&& final(self).rng.spec_seed() == old(self).rng.spec_seed()
                    &&& final(self).rng.spec_state() == r3
                    &&& final(self).clock.spec_tick() == if n == 0 { old(self).clock.spec_tick() } else { w3.current_tick }
                    &&& final(self).pending_events@ == old(self).pending_events@ + evs
                },
            },
    {
        if self.world.is_none() {
            if n > 0 {
                return Err(ApiError::NoWorldLoaded);
            }
            return Ok(());
        }
        let ghost w0 = self.world->Some_0@;
        let ghost seed = self.rng.spec_seed();
        let ghost r0 = self.rng.spec_state();
        let ghost p0 = self.pending_events@;
        let ghost c0 = self.clock.spec_tick();
        let ghost len0 = self.world->Some_0.entities@.len();
        let mut k: u32 = 0;
        while k < n
            invariant
                k <= n,
                self.world matches Some(fw) && fw.wf() && fw.entities@.len() <= len0,
                len0 < u32::MAX,
                self.rng.spec_seed() == seed,
                ({
                    let (wk, rk, ek) = spec_ticks::<R>(seed, r0, w0, k as nat);
                    &&& self.world->Some_0@ == wk
                    &&& self.rng.spec_state() == rk
                    &&& self.pending_events@ == p0 + ek
                    &&& self.clock.spec_tick() == if k == 0 { c0 } else { wk.current_tick }
                }),
            decreases n - k,
        {
            let ghost pk = self.pending_events@;
            let _ = self.cmd_tick();
            proof {
                let (wk, rk, ek) = spec_ticks::<R>(seed, r0, w0, k as nat);
                let (w2, r2, e2) = spec_tick::<R>(seed, rk, wk);
                assert(self.pending_events@ =~= p0 + (ek + e2));
            }
            k = k + 1;
        }
        Ok(())
    }

    fn cmd_spawn_entity(&mut self, cmd: SpawnEntityCmd) -> (r: Result<(), ApiError>)
        requires
            old(self).world matches Some(w) ==> w.wf() && w.next_entity_id < u64::MAX,
        ensures
            final(self).world matches Some(fw) ==> fw.wf(),
            match old(self).world {
                None => r == Err::<(), ApiError>(ApiError::NoWorldLoaded),
                Some(w) => match spec_world_command::<R>(old(self).state(), w@, SimCommand::SpawnEntity(cmd)) {
                    Ok((s2, evs)) => r is Ok && final(self).state() == s2 && final(self).pending_events@ == old(self).pending_events@ + evs,
                    Err(e) => r == Err::<(), ApiError>(e),
                },
            },
    {
        let mut w = match self.world.take() {
            Some(w) => w,
            None => {
                return Err(ApiError::NoWorldLoaded);
            },
        };
        if !w.has_zone(cmd.position.zone) {
            self.world = Some(w);
            return Err(ApiError::ZoneNotFound(cmd.position.zone));
        }
        let id = w.allocate_entity_id();
        let tick = w.current_tick;
        let entity = Entity::new(id, cmd.kind, cmd.position, tick, cmd.properties.clone());
        w.add_entity(entity);
        self.world = Some(w);
        self.emit(EventData::EntitySpawned { entity_id: id, kind: cmd.kind, position: cmd.position, properties: cmd.properties });
        Ok(())
    }

    fn cmd_despawn_entity(&mut self, id: EntityId) -> (r: Result<(), ApiError>)
        requires
            old(self).world matches Some(w) ==> w.wf(),
        ensures
            final(self).world matches Some(fw) ==> fw.wf(),
            match old(self).world {
                None => r == Err::<(), ApiError>(ApiError::NoWorldLoaded),
                Some(w) => match spec_world_command::<R>(old(self).state(), w@, SimCommand::DespawnEntity(id)) {
                    Ok((s2, evs)) => r is Ok && final(self).state() == s2 && final(self).pending_events@ == old(self).pending_events@ + evs,
                    Err(e) => r == Err::<(), ApiError>(e),
                },
            },
    {
        let mut w = match self.world.take() {
            Some(w) => w,
            None => {
                return Err(ApiError::NoWorldLoaded);
            },
        };
        if w.remove_entity(id).is_none() {
            self.world = Some(w);
            return Err(ApiError::EntityNotFound(id));
        }
        self.world = Some(w);
        self.emit(EventData::EntityDespawned { entity_id: id, reason: DespawnReason::Command });
        Ok(())
    }

    fn cmd_create_zone(&mut self, cmd: CreateZoneCmd) -> (r: Result<(), ApiError>)
        requires
            old(self).world matches Some(w) ==> w.wf(),
        ensures
            final(self).world matches Some(fw) ==> fw.wf(),
            match old(self).world {
                None => r == Err::<(), ApiError>(ApiError::NoWorldLoaded),
                Some(w) => match spec_world_command::<R>(old(self).state(), w@, SimCommand::CreateZone(cmd)) {
                    Ok((s2, evs)) => r is Ok && final(self).state() == s2 && final(self).pending_events@ == old(self).pending_events@ + evs,
                    Err(e) => r == Err::<(), ApiError>(e),
                },
            },
    {
        let mut w = match self.world.take() {
            Some(w) => w,
            None => {
                return Err(ApiError::NoWorldLoaded);
            },
        };
        if w.has_zone(cmd.zone_id) {
            self.world = Some(w);
            return Err(ApiError::ZoneAlreadyExists(cmd.zone_id));
        }
        let zone = Zone::new(cmd.zone_id, clone_opt_string(&cmd.name));
        w.add_zone(zone);
        self.world = Some(w);
        self.emit(EventData::ZoneCreated { zone_id: cmd.zone_id, name: cmd.name });
        proof {
            let expected = spec_world_command::<R>(old(self).state(), old(self).world->Some_0@, SimCommand::CreateZone(cmd));
            assert(expected matches Ok((s2, evs)) && s2.world matches Some(v) && v =~= self.world->Some_0@);
        }
        Ok(())
    }

    fn cmd_create_world(&mut self, cmd: CreateWorldCmd) -> (r: Result<(), ApiError>)
        requires
            old(self).world matches Some(w) ==> w.wf(),
        ensures
            final(self).world matches Some(fw) ==> fw.wf(),
            match old(self).world {
                Some(w) => r == Err::<(), ApiError>(ApiError::WorldAlreadyExists(w.meta.world_id))
                    && *final(self) == *old(self),
                None => {
                    &&& r is Ok
                    &&& final(self).state().world matches Some(v) && created_world(v, cmd)
                        && creation_events(final(self).pending_events@.subrange(old(self).pending_events@.len() as int, final(self).pending_events@.len() as int), v, cmd)
                    &&& final(self).pending_events@.len() == old(self).pending_events@.len() + 2
                    &&& final(self).pending_events@.subrange(0, old(self).pending_events@.len() as int) == old(self).pending_events@
                    &&& final(self).state().seed == cmd.seed
                    &&& final(self).state().rng == cmd.seed.0
                    &&& final(self).state().clock.0 == 0
                },
            },
    {
        if let Some(w) = &self.world {
            return Err(ApiError::WorldAlreadyExists(w.meta.world_id.clone()));
        }
        let world = World::new(cmd.name.clone(), cmd.seed);
        let world_id = world.meta.world_id.clone();
        let origin_zone_name = clone_opt_string(&world.zones[0].name);
        self.rng.restore_seeded(cmd.seed, cmd.seed.0);
        self.clock.set_tick(Tick(0));
        self.emit(EventData::WorldCreated { world_id, name: cmd.name, seed: cmd.seed });
        self.emit(EventData::ZoneCreated { zone_id: ZoneId(0), name: origin_zone_name });
        proof {
            assert(world.zone_views().len() == 1);
            assert(world.zone_views()[0] == world.zones@[0]@);
            lemma_keyed_index(world.zone_views(), 0);
            assert(world@.zones.dom() =~= set![0int]) by {
                assert forall|k: int| #[trigger] world@.zones.dom().contains(k) implies k == 0 by {
                    crate::keyed::lemma_keyed_contains(world.zone_views(), k);
                }
            }
            assert(world@.entities =~= Map::<int, Entity>::empty());
        }
        self.world = Some(world);
        proof {
            let v = self.state().world->Some_0;
            let n0 = old(self).pending_events@.len() as int;
            let evs = self.pending_events@.subrange(n0, self.pending_events@.len() as int);
            assert(evs[0] == self.pending_events@[n0]);
            assert(evs[1] == self.pending_events@[n0 + 1]);
            assert(self.pending_events@.subrange(0, n0) =~= old(self).pending_events@);
        }
        Ok(())
    }

    /// Processes a command and returns the events it produced. The command is
    /// validated first; on any error nothing changes (world, random stream and
    /// clock are rolled back).
    pub fn process_command(&mut self, cmd: SimCommand) -> (r: Result<Vec<SimEvent>, ApiError>)
        requires
            old(self).wf(),
            old(self).within_limits(cmd),
        ensures
            final(self).wf(),
            match r {
                Ok(evs) => command_errors(cmd).len() == 0 && step_ok::<R>(old(self).state(), cmd, final(self).state(), evs@),
                Err(ApiError::ValidationFailed(errors)) => errors@ == command_errors(cmd) && errors@.len() > 0
                    && final(self).state() == old(self).state(),
                Err(e) => command_errors(cmd).len() == 0 && step_err::<R>(old(self).state(), cmd, e)
                    && final(self).state() == old(self).state(),
            },
    {
        if let Err(errors) = validate_sim_command(&cmd) {
            return Err(ApiError::ValidationFailed(errors));
        }
        let cp = self.checkpoint();
        let ghost s0 = self.state();
        let result = match cmd {
            SimCommand::CreateWorld(c) => self.cmd_create_world(c),
            SimCommand::Tick => self.cmd_tick(),
            SimCommand::TickN(n) => self.cmd_tick_n(n),
            SimCommand::SpawnEntity(c) => self.cmd_spawn_entity(c),
            SimCommand::DespawnEntity(id) => self.cmd_despawn_entity(id),
            SimCommand::CreateZone(c) => self.cmd_create_zone(c),
        };
        if let Err(err) = result {
            self.restore_checkpoint(cp);
            return Err(err);
        }
        let mut events: Vec<SimEvent> = Vec::new();
        std::mem::swap(&mut events, &mut self.pending_events);
        proof {
            assert(events@ =~= events@.subrange(0, events@.len() as int));
        }
        Ok(events)
    }

    fn emit(&mut self, data: EventData)
        ensures
            final(self).world == old(self).world,
            final(self).rng == old(self).rng,
            final(self).clock == old(self).clock,
            final(self).pending_events@ == old(self).pending_events@.push(ev(
                match old(self).world {
                    Some(w) => w.current_tick,
                    None => Tick(0),
                },
                data,
            )),
    {
        let tick = match &self.world {
            Some(w) => w.current_tick,
            None => Tick(0),
        };
        self.pending_events.push(SimEvent::new(tick, data));
    }
}

} // verus!
