//! Event replay: the deterministic, atomic application of recorded events to
//! a world, used to reconstruct state after a crash.
use vstd::prelude::*;

use crate::commands::EntityProperties;
use crate::events::{EventData, PropertyValue, SimEvent};
use crate::types::{EntityId, EntityState, SimTime, Tick, ZoneId};
use crate::world::{
    zone_with_entity, zone_without_entity, Entity, World, WorldMeta, WorldView, ZoneView, Zone,
};
use vstd::string::StringSliceAdditionalSpecFns;

verus! {

/// The kind of event that referenced a missing zone or entity.
#[derive(Clone, Copy, Debug, PartialEq, Eq, Structural)]
pub enum ReplayEventKind {
    ZoneLoaded,
    ZoneUnloaded,
    EntityDespawned,
    EntityMoved,
    EntityStateChanged,
    EntityPropertyChanged,
    ResourceDepleted,
    EntityDegraded,
}

/// Why an event could not be applied.
#[derive(Debug, PartialEq, Eq)]
pub enum ReplayError {
    /// A `WorldSaved` record whose ticks disagree with the recovered world.
    WorldSavedTickMismatch { event_tick: Tick, payload_tick: Tick, world_tick: Tick },
    /// A `TickProcessed` record whose outer tick differs from its payload tick.
    TickProcessedTickMismatch { event_tick: Tick, payload_tick: Tick },
    /// A `TickProcessed` record whose simulated time is not that of its tick.
    TickProcessedSimTimeMismatch { tick: Tick, sim_time: SimTime },
    /// A `TickProcessed` record without the random state checkpoint.
    TickProcessedWithoutRngState { tick: Tick },
    /// The event references a zone that does not exist.
    MissingZone { event: ReplayEventKind, zone_id: ZoneId },
    /// The event references an entity that does not exist.
    MissingEntity { event: ReplayEventKind, entity_id: EntityId },
    /// A move whose source zone does not exist.
    MissingSourceZone { zone_id: ZoneId },
    /// A move whose destination zone does not exist.
    MissingDestinationZone { zone_id: ZoneId },
    /// Property `name` changed to a value that is not a string.
    NameRequiresString,
    /// Property `amount` changed to a value that is not an unsigned integer.
    AmountRequiresUint,
    /// Property `health` changed to a value that is not an unsigned integer.
    HealthRequiresUint,
    /// A property name the kernel does not know.
    UnknownProperty { property: String },
}

/// UTF-8 bytes of "name", "amount" and "health".
pub open spec fn name_key() -> Seq<u8> {
    seq![110u8, 97u8, 109u8, 101u8]
}

pub open spec fn amount_key() -> Seq<u8> {
    seq![97u8, 109u8, 111u8, 117u8, 110u8, 116u8]
}

pub open spec fn health_key() -> Seq<u8> {
    seq![104u8, 101u8, 97u8, 108u8, 116u8, 104u8]
}

pub open spec fn utf8(s: String) -> Seq<u8> {
    vstd::utf8::encode_utf8(s@)
}

/// Events that replay can apply without exhausting the entity-id space.
pub open spec fn replayable(e: SimEvent) -> bool {
    match e.data {
        EventData::EntitySpawned { entity_id, .. } => entity_id.0 < u64::MAX,
        _ => true,
    }
}

/// Moves the clock forward to `t` when `t` is later than the world's tick.
pub open spec fn bump_tick(w: WorldView, t: Tick) -> WorldView {
    if t.0 > w.current_tick.0 {
        let st = SimTime { units: t.0 };
        WorldView {
            current_tick: t,
            sim_time: st,
            meta: WorldMeta { current_tick: t, sim_time: st, ..w.meta },
            ..w
        }
    } else {
        w
    }
}

pub open spec fn set_entity(w: WorldView, e: Entity) -> WorldView {
    WorldView { entities: w.entities.insert(e.id.0 as int, e), ..w }
}

pub open spec fn set_zone_loaded(w: WorldView, zone: ZoneId, loaded: bool) -> WorldView {
    WorldView {
        zones: w.zones.insert(zone.0 as int, ZoneView { loaded, ..w.zones[zone.0 as int] }),
        ..w
    }
}

/// Moves an entity from one zone's index to another's.
pub open spec fn move_in_index(w: WorldView, id: EntityId, from: ZoneId, to: ZoneId) -> WorldView {
    let z1 = w.zones.insert(from.0 as int, zone_without_entity(w.zones[from.0 as int], id));
    WorldView { zones: z1.insert(to.0 as int, zone_with_entity(z1[to.0 as int], id)), ..w }
}

/// The result of applying a property change to an entity.
pub open spec fn property_change(e: Entity, property: String, v: PropertyValue) -> Result<Entity, ReplayError> {
    if utf8(property) == name_key() {
        match v {
            PropertyValue::String(s) => Ok(Entity { properties: EntityProperties { name: Some(s), ..e.properties }, ..e }),
            _ => Err(ReplayError::NameRequiresString),
        }
    } else if utf8(property) == amount_key() {
        match v {
            PropertyValue::UInt(n) => Ok(Entity { properties: EntityProperties { amount: Some(n as u32), ..e.properties }, ..e }),
            _ => Err(ReplayError::AmountRequiresUint),
        }
    } else if utf8(property) == health_key() {
        match v {
            PropertyValue::UInt(n) => Ok(Entity { properties: EntityProperties { health: Some(n as u32), ..e.properties }, ..e }),
            _ => Err(ReplayError::HealthRequiresUint),
        }
    } else {
        Err(ReplayError::UnknownProperty { property })
    }
}

/// The effect of an event's payload once the world clock has caught up with
/// the event's tick.
pub open spec fn apply_data(w: WorldView, event_tick: Tick, data: EventData) -> Result<WorldView, ReplayError> {
    match data {
        EventData::WorldCreated { .. } => Ok(w),
        EventData::WorldLoaded { .. } => Ok(w),
        EventData::WorldSaved { .. } => Ok(w),
        EventData::TickProcessed { tick, sim_time, rng_state_after, .. } => {
            let w2 = if tick.0 > w.current_tick.0 {
                WorldView {
                    current_tick: tick,
                    sim_time,
                    meta: WorldMeta { current_tick: tick, sim_time, ..w.meta },
                    ..w
                }
            } else {
                w
            };
            Ok(
                match rng_state_after {
                    Some(s) => WorldView { rng_state: s, ..w2 },
                    None => w2,
                },
            )
        },
        EventData::ZoneCreated { zone_id, name } => Ok(
            if w.zones.contains_key(zone_id.0 as int) {
                w
            } else {
                WorldView {
                    zones: w.zones.insert(zone_id.0 as int, ZoneView { id: zone_id, name, loaded: true, entities: Seq::empty() }),
                    ..w
                }
            },
        ),
        EventData::ZoneLoaded { zone_id } => if w.zones.contains_key(zone_id.0 as int) {
            Ok(set_zone_loaded(w, zone_id, true))
        } else {
            Err(ReplayError::MissingZone { event: ReplayEventKind::ZoneLoaded, zone_id })
        },
        EventData::ZoneUnloaded { zone_id } => if w.zones.contains_key(zone_id.0 as int) {
            Ok(set_zone_loaded(w, zone_id, false))
        } else {
            Err(ReplayError::MissingZone { event: ReplayEventKind::ZoneUnloaded, zone_id })
        },
        EventData::EntitySpawned { entity_id, kind, position, properties } => {
            if w.entities.contains_key(entity_id.0 as int) {
                Ok(w)
            } else {
                let w2 = if entity_id.0 >= w.next_entity_id {
                    WorldView { next_entity_id: (entity_id.0 + 1) as u64, ..w }
                } else {
                    w
                };
                Ok(w2.with_entity(Entity { id: entity_id, kind, state: EntityState::Active, position, created_at: event_tick, properties }))
            }
        },
        EventData::EntityDespawned { entity_id, .. } => if w.entities.contains_key(entity_id.0 as int) {
            Ok(w.without_entity(entity_id))
        } else {
            Err(ReplayError::MissingEntity { event: ReplayEventKind::EntityDespawned, entity_id })
        },
        EventData::EntityMoved { entity_id, from, to } => {
            if !w.entities.contains_key(entity_id.0 as int) {
                Err(ReplayError::MissingEntity { event: ReplayEventKind::EntityMoved, entity_id })
            } else if !w.zones.contains_key(from.zone.0 as int) {
                Err(ReplayError::MissingSourceZone { zone_id: from.zone })
            } else if !w.zones.contains_key(to.zone.0 as int) {
                Err(ReplayError::MissingDestinationZone { zone_id: to.zone })
            } else {
                let w2 = if from.zone != to.zone {
                    move_in_index(w, entity_id, from.zone, to.zone)
                } else {
                    w
                };
                Ok(set_entity(w2, Entity { position: to, ..w2.entities[entity_id.0 as int] }))
            }
        },
        EventData::EntityStateChanged { entity_id, new_state, .. } => if w.entities.contains_key(entity_id.0 as int) {
            Ok(set_entity(w, Entity { state: new_state, ..w.entities[entity_id.0 as int] }))
        } else {
            Err(ReplayError::MissingEntity { event: ReplayEventKind::EntityStateChanged, entity_id })
        },
        EventData::EntityPropertyChanged { entity_id, property, new_value, .. } => {
            if w.entities.contains_key(entity_id.0 as int) {
                match property_change(w.entities[entity_id.0 as int], property, new_value) {
                    Ok(e) => Ok(set_entity(w, e)),
                    Err(err) => Err(err),
                }
            } else {
                Err(ReplayError::MissingEntity { event: ReplayEventKind::EntityPropertyChanged, entity_id })
            }
        },
        EventData::ResourceDepleted { entity_id, remaining, .. } => if w.entities.contains_key(entity_id.0 as int) {
            let e = w.entities[entity_id.0 as int];
            Ok(set_entity(w, Entity {
                properties: EntityProperties { amount: Some(remaining), ..e.properties },
                state: if remaining == 0 { EntityState::Dead } else { e.state },
                ..e
            }))
        } else {
            Err(ReplayError::MissingEntity { event: ReplayEventKind::ResourceDepleted, entity_id })
        },
        EventData::EntityDegraded { entity_id, new_health, .. } => if w.entities.contains_key(entity_id.0 as int) {
            let e = w.entities[entity_id.0 as int];
            Ok(set_entity(w, Entity {
                properties: EntityProperties { health: Some(new_health), ..e.properties },
                state: if new_health == 0 { EntityState::Dead } else { e.state },
                ..e
            }))
        } else {
            Err(ReplayError::MissingEntity { event: ReplayEventKind::EntityDegraded, entity_id })
        },
    }
}

/// The result of applying one event to a world.
pub open spec fn spec_apply_event(w: WorldView, e: SimEvent) -> Result<WorldView, ReplayError> {
    match e.data {
        EventData::WorldSaved { tick } => if e.tick != w.current_tick || tick != w.current_tick {
            Err(ReplayError::WorldSavedTickMismatch { event_tick: e.tick, payload_tick: tick, world_tick: w.current_tick })
        } else {
            Ok(w)
        },
        EventData::TickProcessed { tick, sim_time, rng_state_after, .. } => if e.tick != tick {
            Err(ReplayError::TickProcessedTickMismatch { event_tick: e.tick, payload_tick: tick })
        } else if sim_time != SimTime::spec_from_ticks(tick) {
            Err(ReplayError::TickProcessedSimTimeMismatch { tick, sim_time })
        } else if rng_state_after is None {
            Err(ReplayError::TickProcessedWithoutRngState { tick })
        } else {
            apply_data(bump_tick(w, e.tick), e.tick, e.data)
        },
        _ => apply_data(bump_tick(w, e.tick), e.tick, e.data),
    }
}

/// Whether a string's UTF-8 bytes are exactly `w`.
fn str_is(s: &str, w: &[u8]) -> (r: bool)
    ensures
        r == (s.spec_bytes() == w@),
{
    let b = s.as_bytes();
    if b.len() != w.len() {
        return false;
    }
    let mut i: usize = 0;
    while i < b.len()
        invariant
            b@ == s.spec_bytes(),
            b@.len() == w@.len(),
            i <= b@.len(),
            forall|j: int| 0 <= j < i ==> b@[j] == w@[j],
        decreases b@.len() - i,
    {
        if b[i] != w[i] {
            return false;
        }
        i = i + 1;
    }
    assert(b@ =~= w@);
    true
}

fn bump_world_tick(world: &mut World, t: Tick)
    requires
        old(world).wf(),
    ensures
        final(world).wf(),
        final(world)@ == bump_tick(old(world)@, t),
        final(world).entities@ == old(world).entities@,
        final(world).zone_views() == old(world).zone_views(),
{
    if t.0 > world.current_tick.0 {
        let st = SimTime::from_ticks(t);
        world.current_tick = t;
        world.sim_time = st;
        world.meta.current_tick = t;
        world.meta.sim_time = st;
    }
}

fn apply_property_change(e: &mut Entity, property: &String, v: &PropertyValue) -> (r: Result<(), ReplayError>)
    ensures
        match r {
            Ok(()) => property_change(*old(e), *property, *v) == Ok::<Entity, ReplayError>(*final(e)),
            Err(err) => property_change(*old(e), *property, *v) == Err::<Entity, ReplayError>(err),
        },
{
    let p = property.as_str();
    if str_is(p, &[110u8, 97u8, 109u8, 101u8]) {
        assert(utf8(*property) == name_key());
        match v {
            PropertyValue::String(s) => {
                e.properties.name = Some(s.clone());
                Ok(())
            },
            _ => Err(ReplayError::NameRequiresString),
        }
    } else if str_is(p, &[97u8, 109u8, 111u8, 117u8, 110u8, 116u8]) {
        assert(utf8(*property) == amount_key());
        match v {
            PropertyValue::UInt(n) => {
                e.properties.amount = Some(*n as u32);
                Ok(())
            },
            _ => Err(ReplayError::AmountRequiresUint),
        }
    } else if str_is(p, &[104u8, 101u8, 97u8, 108u8, 116u8, 104u8]) {
        assert(utf8(*property) == health_key());
        match v {
            PropertyValue::UInt(n) => {
                e.properties.health = Some(*n as u32);
                Ok(())
            },
            _ => Err(ReplayError::HealthRequiresUint),
        }
    } else {
        proof {
            assert([110u8, 97u8, 109u8, 101u8]@ =~= name_key());
            assert([97u8, 109u8, 111u8, 117u8, 110u8, 116u8]@ =~= amount_key());
            assert([104u8, 101u8, 97u8, 108u8, 116u8, 104u8]@ =~= health_key());
        }
        Err(ReplayError::UnknownProperty { property: property.clone() })
    }
}

fn apply_data_in_place(world: &mut World, event_tick: Tick, data: &EventData) -> (r: Result<(), ReplayError>)
    requires
        old(world).wf(),
        match *data {
            EventData::EntitySpawned { entity_id, .. } => entity_id.0 < u64::MAX,
            _ => true,
        },
    ensures
        final(world).wf(),
        match r {
            Ok(()) => apply_data(old(world)@, event_tick, *data) == Ok::<WorldView, ReplayError>(final(world)@),
            Err(err) => apply_data(old(world)@, event_tick, *data) == Err::<WorldView, ReplayError>(err),
        },
{
    let ghost w0 = world@;
    match data {
        EventData::WorldCreated { .. } => Ok(()),
        EventData::WorldLoaded { .. } => Ok(()),
        EventData::WorldSaved { .. } => Ok(()),
        EventData::TickProcessed { tick, sim_time, rng_state_after, .. } => {
            if tick.0 > world.current_tick.0 {
                world.current_tick = *tick;
                world.sim_time = *sim_time;
                world.meta.current_tick = *tick;
                world.meta.sim_time = *sim_time;
            }
            if let Some(s) = rng_state_after {
                world.rng_state = *s;
            }
            proof {
                let expected = apply_data(w0, event_tick, *data);
                assert(expected matches Ok(v) && v =~= world@);
            }
            Ok(())
        },
        EventData::ZoneCreated { zone_id, name } => {
            if !world.has_zone(*zone_id) {
                let zone = Zone::new(*zone_id, crate::commands::clone_opt_string(name));
                world.add_zone(zone);
            }
            proof {
                let expected = apply_data(w0, event_tick, *data);
                assert(expected matches Ok(v) && v =~= world@);
            }
            Ok(())
        },
        EventData::ZoneLoaded { zone_id } => {
            if world.set_zone_loaded(*zone_id, true) {
                proof {
                    let expected = apply_data(w0, event_tick, *data);
                    assert(expected matches Ok(v) && v =~= world@);
                }
                Ok(())
            } else {
                Err(ReplayError::MissingZone { event: ReplayEventKind::ZoneLoaded, zone_id: *zone_id })
            }
        },
        EventData::ZoneUnloaded { zone_id } => {
            if world.set_zone_loaded(*zone_id, false) {
                proof {
                    let expected = apply_data(w0, event_tick, *data);
                    assert(expected matches Ok(v) && v =~= world@);
                }
                Ok(())
            } else {
                Err(ReplayError::MissingZone { event: ReplayEventKind::ZoneUnloaded, zone_id: *zone_id })
            }
        },
        EventData::EntitySpawned { entity_id, kind, position, properties } => {
            if world.find_entity(*entity_id).is_some() {
                return Ok(());
            }
            if entity_id.0 >= world.next_entity_id {
                world.next_entity_id = entity_id.0 + 1;
            }
            let ghost w2 = world@;
            let entity = Entity::new(*entity_id, *kind, *position, event_tick, properties.clone());
            world.add_entity(entity);
            proof {
                let expected = apply_data(w0, event_tick, *data);
                assert(expected matches Ok(v) && v =~= world@);
            }
            Ok(())
        },
        EventData::EntityDespawned { entity_id, .. } => {
            match world.remove_entity(*entity_id) {
                Some(_) => Ok(()),
                None => Err(ReplayError::MissingEntity { event: ReplayEventKind::EntityDespawned, entity_id: *entity_id }),
            }
        },
        EventData::EntityMoved { entity_id, from, to } => {
            if world.find_entity(*entity_id).is_none() {
                return Err(ReplayError::MissingEntity { event: ReplayEventKind::EntityMoved, entity_id: *entity_id });
            }
            if !world.has_zone(from.zone) {
                return Err(ReplayError::MissingSourceZone { zone_id: from.zone });
            }
            if !world.has_zone(to.zone) {
                return Err(ReplayError::MissingDestinationZone { zone_id: to.zone });
            }
            if from.zone != to.zone {
                world.zone_remove_entity(from.zone, *entity_id);
                world.zone_add_entity(to.zone, *entity_id);
            }
            let ghost w2 = world@;
            proof {
                assert(w2 =~= (if from.zone != to.zone { move_in_index(w0, *entity_id, from.zone, to.zone) } else { w0 }));
            }
            match world.find_entity(*entity_id) {
                Some(i) => {
                    let mut e = world.entities[i].clone();
                    e.position = *to;
                    world.put_entity_at(i, e);
                    proof {
                        let expected = apply_data(w0, event_tick, *data);
                        assert(expected matches Ok(v) && v =~= world@);
                    }
                    Ok(())
                },
                None => Err(ReplayError::MissingEntity { event: ReplayEventKind::EntityMoved, entity_id: *entity_id }),
            }
        },
        EventData::EntityStateChanged { entity_id, new_state, .. } => {
            match world.find_entity(*entity_id) {
                Some(i) => {
                    let mut e = world.entities[i].clone();
                    e.state = *new_state;
                    world.put_entity_at(i, e);
                    proof {
                        let expected = apply_data(w0, event_tick, *data);
                        assert(expected matches Ok(v) && v =~= world@);
                    }
                    Ok(())
                },
                None => Err(ReplayError::MissingEntity { event: ReplayEventKind::EntityStateChanged, entity_id: *entity_id }),
            }
        },
        EventData::EntityPropertyChanged { entity_id, property, new_value, .. } => {
            match world.find_entity(*entity_id) {
                Some(i) => {
                    let mut e = world.entities[i].clone();
                    let res = apply_property_change(&mut e, property, new_value);
                    match res {
                        Ok(()) => {
                            world.put_entity_at(i, e);
                            proof {
                                let expected = apply_data(w0, event_tick, *data);
                                assert(expected matches Ok(v) && v =~= world@);
                            }
                            Ok(())
                        },
                        Err(err) => Err(err),
                    }
                },
                None => Err(ReplayError::MissingEntity { event: ReplayEventKind::EntityPropertyChanged, entity_id: *entity_id }),
            }
        },
        EventData::ResourceDepleted { entity_id, remaining, .. } => {
            match world.find_entity(*entity_id) {
                Some(i) => {
                    let mut e = world.entities[i].clone();
                    e.properties.amount = Some(*remaining);
                    if *remaining == 0 {
                        e.state = EntityState::Dead;
                    }
                    world.put_entity_at(i, e);
                    proof {
                        let expected = apply_data(w0, event_tick, *data);
                        assert(expected matches Ok(v) && v =~= world@);
                    }
                    Ok(())
                },
                None => Err(ReplayError::MissingEntity { event: ReplayEventKind::ResourceDepleted, entity_id: *entity_id }),
            }
        },
        EventData::EntityDegraded { entity_id, new_health, .. } => {
            match world.find_entity(*entity_id) {
                Some(i) => {
                    let mut e = world.entities[i].clone();
                    e.properties.health = Some(*new_health);
                    if *new_health == 0 {
                        e.state = EntityState::Dead;
                    }
                    world.put_entity_at(i, e);
                    proof {
                        let expected = apply_data(w0, event_tick, *data);
                        assert(expected matches Ok(v) && v =~= world@);
                    }
                    Ok(())
                },
                None => Err(ReplayError::MissingEntity { event: ReplayEventKind::EntityDegraded, entity_id: *entity_id }),
            }
        },
    }
}

fn apply_event_in_place(world: &mut World, event: &SimEvent) -> (r: Result<(), ReplayError>)
    requires
        old(world).wf(),
        replayable(*event),
    ensures
        final(world).wf(),
        match r {
            Ok(()) => spec_apply_event(old(world)@, *event) == Ok::<WorldView, ReplayError>(final(world)@),
            Err(err) => spec_apply_event(old(world)@, *event) == Err::<WorldView, ReplayError>(err),
        },
        r is Err && (event.data is WorldSaved || event.data is TickProcessed) ==> *final(world) == *old(world),
{
    if let EventData::TickProcessed { tick, sim_time, rng_state_after, .. } = &event.data {
        if event.tick != *tick {
            return Err(ReplayError::TickProcessedTickMismatch { event_tick: event.tick, payload_tick: *tick });
        }
        if sim_time.units != tick.0 {
            return Err(ReplayError::TickProcessedSimTimeMismatch { tick: *tick, sim_time: *sim_time });
        }
        if rng_state_after.is_none() {
            return Err(ReplayError::TickProcessedWithoutRngState { tick: *tick });
        }
    }
    if let EventData::WorldSaved { tick } = &event.data {
        if event.tick != world.current_tick || *tick != world.current_tick {
            return Err(ReplayError::WorldSavedTickMismatch {
                event_tick: event.tick,
                payload_tick: *tick,
                world_tick: world.current_tick,
            });
        }
        return Ok(());
    }
    bump_world_tick(world, event.tick);
    apply_data_in_place(world, event.tick, &event.data)
}

/// Applies one event to the world, atomically: on error the world is left
/// exactly as it was.
pub fn apply_event(world: &mut World, event: &SimEvent) -> (r: Result<(), ReplayError>)
    requires
        old(world).wf(),
        replayable(*event),
    ensures
        final(world).wf(),
        match r {
            Ok(()) => spec_apply_event(old(world)@, *event) == Ok::<WorldView, ReplayError>(final(world)@),
            Err(err) => spec_apply_event(old(world)@, *event) == Err::<WorldView, ReplayError>(err)
                && final(world)@ == old(world)@ && final(world).entities@ == old(world).entities@
                && final(world).zone_views() == old(world).zone_views(),
        },
{
    let mut next = world.clone();
    apply_event_in_place(&mut next, event)?;
    *world = next;
    Ok(())
}

/// Replaying a sequence of events: the world after the longest prefix that
/// applies, and either the number of events applied or the first error.
pub open spec fn spec_replay(w: WorldView, events: Seq<SimEvent>) -> (WorldView, Result<nat, ReplayError>)
    decreases events.len(),
{
    if events.len() == 0 {
        (w, Ok(0))
    } else {
        let (w1, r1) = spec_replay(w, events.drop_last());
        match r1 {
            Err(e) => (w1, Err(e)),
            Ok(n) => match spec_apply_event(w1, events.last()) {
                Ok(w2) => (w2, Ok(n + 1)),
                Err(e) => (w1, Err(e)),
            },
        }
    }
}

pub open spec fn all_replayable(events: Seq<SimEvent>) -> bool {
    forall|i: int| 0 <= i < events.len() ==> replayable(#[trigger] events[i])
}

/// Replays events in order and returns how many were applied, or the first
/// error; events before the failing one stay applied.
pub fn replay_events(world: &mut World, events: &[SimEvent]) -> (r: Result<usize, ReplayError>)
    requires
        old(world).wf(),
        all_replayable(events@),
    ensures
        final(world).wf(),
        final(world)@ == spec_replay(old(world)@, events@).0,
        match r {
            Ok(n) => spec_replay(old(world)@, events@).1 == Ok::<nat, ReplayError>(n as nat),
            Err(e) => spec_replay(old(world)@, events@).1 == Err::<nat, ReplayError>(e),
        },
{
    let ghost w0 = world@;
    let mut i: usize = 0;
    while i < events.len()
        invariant
            world.wf(),
            w0 == old(world)@,
            i <= events@.len(),
            all_replayable(events@),
            world@ == spec_replay(w0, events@.take(i as int)).0,
            spec_replay(w0, events@.take(i as int)).1 == Ok::<nat, ReplayError>(i as nat),
        decreases events@.len() - i,
    {
        proof {
            assert(events@.take(i + 1).drop_last() =~= events@.take(i as int));
            assert(events@.take(i + 1).last() == events@[i as int]);
        }
        let ghost before = world@;
        match apply_event(world, &events[i]) {
            Ok(()) => {},
            Err(e) => {
                proof {
                    assert(world@ =~= before);
                    assert(spec_replay(w0, events@.take(i as int + 1)).0 =~= world@);
                    assert(spec_replay(w0, events@.take(i as int + 1)).1 == Err::<nat, ReplayError>(e));
                    assert(events@.take(events@.len() as int) =~= events@);
                    lemma_replay_stops(w0, events@, i as nat);
                    assert(spec_replay(w0, events@) == spec_replay(w0, events@.take(i as int + 1)));
                    assert(spec_replay(w0, events@).0 == world@);
                    assert(spec_replay(w0, events@).1 == Err::<nat, ReplayError>(e));
                }
                return Err(e);
            },
        }
        i = i + 1;
    }
    assert(events@.take(events@.len() as int) =~= events@);
    Ok(i)
}

/// Once replay fails at some position, later events do not change the outcome.
proof fn lemma_replay_stops(w: WorldView, events: Seq<SimEvent>, i: nat)
    requires
        i < events.len(),
        spec_replay(w, events.take(i as int)).1 is Ok,
        spec_replay(w, events.take(i as int + 1)).1 is Err,
    ensures
        spec_replay(w, events) == spec_replay(w, events.take(i as int + 1)),
    decreases events.len() - i,
{
    if i + 1 < events.len() {
        assert(events.take(i as int + 2).drop_last() =~= events.take(i as int + 1));
        if i + 2 == events.len() {
            assert(events.take(i as int + 2) =~= events);
        } else {
            lemma_replay_err_prefix(w, events, i + 1);
        }
    } else {
        assert(events.take(i as int + 1) =~= events);
    }
}

proof fn lemma_replay_err_prefix(w: WorldView, events: Seq<SimEvent>, k: nat)
    requires
        k <= events.len(),
        spec_replay(w, events.take(k as int)).1 is Err,
    ensures
        spec_replay(w, events) == spec_replay(w, events.take(k as int)),
    decreases events.len() - k,
{
    if k == events.len() {
        assert(events.take(k as int) =~= events);
    } else {
        assert(events.take(k as int + 1).drop_last() =~= events.take(k as int));
        lemma_replay_err_prefix(w, events, k + 1);
    }
}

/// Replay of a spawn is idempotent: applying the same `EntitySpawned` event a
/// second time leaves the world unchanged.
pub proof fn law_spawn_replay_idempotent(w: WorldView, e: SimEvent)
    requires
        e.data is EntitySpawned,
        spec_apply_event(w, e) is Ok,
    ensures
        spec_apply_event(spec_apply_event(w, e)->Ok_0, e) == spec_apply_event(w, e),
{
    let w1 = spec_apply_event(w, e)->Ok_0;
    let k = e.data->EntitySpawned_entity_id.0 as int;
    assert(w1.entities.contains_key(k));
    assert(bump_tick(w1, e.tick) == w1);
}

/// A coherent `WorldSaved` record changes nothing; an incoherent one is refused.
pub proof fn law_world_saved_is_noop(w: WorldView, e: SimEvent)
    requires
        e.data is WorldSaved,
    ensures
        (e.tick == w.current_tick && e.data->WorldSaved_tick == w.current_tick) ==> spec_apply_event(w, e) == Ok::<WorldView, ReplayError>(w),
        !(e.tick == w.current_tick && e.data->WorldSaved_tick == w.current_tick) ==> spec_apply_event(w, e) is Err,
{
}

/// Replay is idempotent: applying the same event a second time leaves the
/// world as the first application left it, for every kind of event but a
/// despawn (the entity is gone) and a move (its source zone no longer holds
/// the entity). The world's entity table is keyed by entity id.
pub proof fn law_replay_idempotent(w: WorldView, e: SimEvent)
    requires
        !(e.data is EntityDespawned),
        !(e.data is EntityMoved),
        forall|k: int| #[trigger] w.entities.contains_key(k) ==> w.entities[k].id.0 == k,
        spec_apply_event(w, e) is Ok,
    ensures
        spec_apply_event(spec_apply_event(w, e)->Ok_0, e) == spec_apply_event(w, e),
{
    let w1 = spec_apply_event(w, e)->Ok_0;
    assert(bump_tick(w1, e.tick) == w1);
    if e.data is EntitySpawned {
        law_spawn_replay_idempotent(w, e);
    }
    if e.data is ZoneCreated {
        assert(w1.zones.contains_key(e.data->ZoneCreated_zone_id.0 as int));
    }
    let w0 = bump_tick(w, e.tick);
    match e.data {
        EventData::ZoneLoaded { zone_id } => {
            let k = zone_id.0 as int;
            assert(w1.zones[k] == ZoneView { loaded: true, ..w0.zones[k] });
            assert(w1.zones.insert(k, ZoneView { loaded: true, ..w1.zones[k] }) =~= w1.zones);
        },
        EventData::ZoneUnloaded { zone_id } => {
            let k = zone_id.0 as int;
            assert(w1.zones[k] == ZoneView { loaded: false, ..w0.zones[k] });
            assert(w1.zones.insert(k, ZoneView { loaded: false, ..w1.zones[k] }) =~= w1.zones);
        },
        EventData::EntityStateChanged { entity_id, new_state, .. } => {
            let k = entity_id.0 as int;
            assert(w1.entities.insert(k, Entity { state: new_state, ..w1.entities[k] }) =~= w1.entities);
        },
        EventData::EntityPropertyChanged { entity_id, property, new_value, .. } => {
            let k = entity_id.0 as int;
            let e1 = property_change(w0.entities[k], property, new_value)->Ok_0;
            assert(w1.entities[k] == e1);
            assert(property_change(e1, property, new_value) == Ok::<Entity, ReplayError>(e1));
            assert(w1.entities.insert(k, e1) =~= w1.entities);
        },
        EventData::ResourceDepleted { entity_id, remaining, .. } => {
            let k = entity_id.0 as int;
            let x = w1.entities[k];
            assert(w1.entities.insert(k, Entity {
                properties: EntityProperties { amount: Some(remaining), ..x.properties },
                state: if remaining == 0 { EntityState::Dead } else { x.state },
                ..x
            }) =~= w1.entities);
        },
        EventData::EntityDegraded { entity_id, new_health, .. } => {
            let k = entity_id.0 as int;
            let x = w1.entities[k];
            assert(w1.entities.insert(k, Entity {
                properties: EntityProperties { health: Some(new_health), ..x.properties },
                state: if new_health == 0 { EntityState::Dead } else { x.state },
                ..x
            }) =~= w1.entities);
        },
        _ => {},
    }
}

/// A `WorldCreated` record is a no-op on a world already at or past its tick.
pub proof fn law_world_created_is_noop(w: WorldView, e: SimEvent)
    requires
        e.data is WorldCreated,
        e.tick.0 <= w.current_tick.0,
    ensures
        spec_apply_event(w, e) == Ok::<WorldView, ReplayError>(w),
{
}

/// A move puts the entity at its destination, whether it stays in its zone
/// or changes zone, and leaves every other entity as it was.
pub proof fn law_move_sets_position(w: WorldView, e: SimEvent)
    requires
        e.data is EntityMoved,
        forall|k: int| #[trigger] w.entities.contains_key(k) ==> w.entities[k].id.0 == k,
        spec_apply_event(w, e) is Ok,
    ensures
        ({
            let id = e.data->EntityMoved_entity_id;
            let to = e.data->EntityMoved_to;
            let w2 = spec_apply_event(w, e)->Ok_0;
            &&& w.entities.contains_key(id.0 as int)
            &&& w2.entities.dom() == w.entities.dom()
            &&& w2.entities[id.0 as int] == (Entity { position: to, ..w.entities[id.0 as int] })
            &&& forall|k: int| #[trigger] w2.entities.contains_key(k) && k != id.0 ==> w2.entities[k] == w.entities[k]
        }),
{
    let id = e.data->EntityMoved_entity_id;
    let w2 = spec_apply_event(w, e)->Ok_0;
    assert(w2.entities.dom() =~= w.entities.dom());
}

/// What the entity events do to the entity they name, when they apply:
/// a spawn of a new id adds the entity, active, created at the event's
/// tick; a despawn removes it; a state change sets its state; a depletion
/// sets the resource's stock and kills it at zero; a degradation sets the
/// creature's health and kills it at zero. Every other entity is left as
/// it was.
pub proof fn law_entity_events(w: WorldView, e: SimEvent)
    requires
        forall|k: int| #[trigger] w.entities.contains_key(k) ==> w.entities[k].id.0 == k,
        spec_apply_event(w, e) is Ok,
    ensures
        ({
            let w2 = spec_apply_event(w, e)->Ok_0;
            match e.data {
                EventData::EntitySpawned { entity_id, kind, position, properties } => {
                    let k = entity_id.0 as int;
                    &&& w2.entities.contains_key(k)
                    &&& !w.entities.contains_key(k) ==> w2.entities[k] == (Entity {
                        id: entity_id,
                        kind,
                        state: EntityState::Active,
                        position,
                        created_at: e.tick,
                        properties,
                    })
                    &&& w.entities.contains_key(k) ==> w2.entities == w.entities
                    &&& forall|j: int| j != k ==> (#[trigger] w2.entities.contains_key(j) == w.entities.contains_key(j))
                    &&& forall|j: int| j != k && #[trigger] w2.entities.contains_key(j) ==> w2.entities[j] == w.entities[j]
                    &&& !w.entities.contains_key(k) && entity_id.0 < u64::MAX ==> w2.next_entity_id > entity_id.0
                },
                EventData::EntityDespawned { entity_id, .. } => {
                    &&& w.entities.contains_key(entity_id.0 as int)
                    &&& w2.entities == w.entities.remove(entity_id.0 as int)
                },
                EventData::EntityStateChanged { entity_id, new_state, .. } => {
                    let k = entity_id.0 as int;
                    &&& w.entities.contains_key(k)
                    &&& w2.entities == w.entities.insert(k, Entity { state: new_state, ..w.entities[k] })
                },
                EventData::ResourceDepleted { entity_id, remaining, .. } => {
                    let k = entity_id.0 as int;
                    &&& w.entities.contains_key(k)
                    &&& w2.entities.dom() == w.entities.dom()
                    &&& w2.entities[k].properties.amount == Some(remaining)
                    &&& (remaining == 0 ==> w2.entities[k].state == EntityState::Dead)
                    &&& (remaining > 0 ==> w2.entities[k].state == w.entities[k].state)
                    &&& forall|j: int| j != k && #[trigger] w2.entities.contains_key(j) ==> w2.entities[j] == w.entities[j]
                },
                EventData::EntityDegraded { entity_id, new_health, .. } => {
                    let k = entity_id.0 as int;
                    &&& w.entities.contains_key(k)
                    &&& w2.entities.dom() == w.entities.dom()
                    &&& w2.entities[k].properties.health == Some(new_health)
                    &&& (new_health == 0 ==> w2.entities[k].state == EntityState::Dead)
                    &&& (new_health > 0 ==> w2.entities[k].state == w.entities[k].state)
                    &&& forall|j: int| j != k && #[trigger] w2.entities.contains_key(j) ==> w2.entities[j] == w.entities[j]
                },
                _ => true,
            }
        }),
{
    let w2 = spec_apply_event(w, e)->Ok_0;
    match e.data {
        EventData::ResourceDepleted { entity_id, remaining, .. } => {
            let k = entity_id.0 as int;
            let w0 = bump_tick(w, e.tick);
            let x = w0.entities[k];
            assert(x.id.0 == k);
            assert(w2.entities == w0.entities.insert(k, Entity {
                properties: EntityProperties { amount: Some(remaining), ..x.properties },
                state: if remaining == 0 { EntityState::Dead } else { x.state },
                ..x
            }));
            assert(w2.entities.dom() =~= w.entities.dom());
            assert(w2.entities[k].properties.amount == Some(remaining));
            assert(remaining == 0 ==> w2.entities[k].state == EntityState::Dead);
            assert(remaining > 0 ==> w2.entities[k].state == w.entities[k].state);
            assert(forall|j: int| j != k && #[trigger] w2.entities.contains_key(j) ==> w2.entities[j] == w.entities[j]);
        },
        EventData::EntityDegraded { entity_id, .. } => {
            assert(w2.entities.dom() =~= w.entities.dom());
        },
        EventData::EntityStateChanged { entity_id, new_state, .. } => {
            let k = entity_id.0 as int;
            assert(w2.entities =~= w.entities.insert(k, Entity { state: new_state, ..w.entities[k] }));
        },
        EventData::EntityDespawned { entity_id, .. } => {
            assert(w2.entities =~= w.entities.remove(entity_id.0 as int));
        },
        EventData::EntitySpawned { entity_id, kind, position, properties } => {
            let k = entity_id.0 as int;
            let w0 = bump_tick(w, e.tick);
            assert(w0.entities == w.entities);
            if !w.entities.contains_key(k) {
                assert(w2.entities[k] == (Entity {
                    id: entity_id,
                    kind,
                    state: EntityState::Active,
                    position,
                    created_at: e.tick,
                    properties,
                }));
            }
            assert(w2.entities.contains_key(k));
            assert(w.entities.contains_key(k) ==> w2.entities == w.entities);
            assert(forall|j: int| j != k ==> (#[trigger] w2.entities.contains_key(j) == w.entities.contains_key(j)));
        },
        _ => {},
    }
}

} // verus!
