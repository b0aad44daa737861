//! Events: immutable facts describing state changes. They are the source of
//! truth for replay and are identified by a monotonic `event_id`.
use vstd::prelude::*;

use crate::commands::{clone_opt_string, EntityProperties};
use crate::types::{EntityId, EntityKind, EntityState, EventId, RngSeed, SimTime, Tick, WorldPos, ZoneId};

verus! {

/// An event that occurred in the simulation.
#[derive(Debug, PartialEq, Eq)]
pub struct SimEvent {
    /// Unique monotonic id (assigned by the write-ahead log on persist).
    pub event_id: EventId,
    /// Tick when this event occurred.
    pub tick: Tick,
    /// The event payload.
    pub data: EventData,
}

impl SimEvent {
    /// A new event whose id is still unassigned (zero).
    pub fn new(tick: Tick, data: EventData) -> (r: SimEvent)
        ensures
            r == (SimEvent { event_id: EventId(0), tick, data }),
    {
        SimEvent { event_id: EventId(0), tick, data }
    }

    /// An event with a specific id (for replay).
    pub fn with_id(event_id: EventId, tick: Tick, data: EventData) -> (r: SimEvent)
        ensures
            r == (SimEvent { event_id, tick, data }),
    {
        SimEvent { event_id, tick, data }
    }
}

/// Event payload variants.
#[allow(inconsistent_fields)]
#[derive(Debug, PartialEq, Eq)]
pub enum EventData {
    /// World was created.
    WorldCreated { world_id: String, name: String, seed: RngSeed },
    /// World was loaded from storage (legacy; replay no-op).
    WorldLoaded { world_id: String, tick: Tick },
    /// World was saved (legacy; replay no-op when coherent).
    WorldSaved { tick: Tick },
    /// A tick was processed. `rng_state_after` is the random-stream state
    /// after the tick; it is optional only so older payloads can be read.
    TickProcessed { tick: Tick, sim_time: SimTime, entities_processed: u32, rng_state_after: Option<u64> },
    /// Zone was created.
    ZoneCreated { zone_id: ZoneId, name: Option<String> },
    /// Zone was loaded into active simulation.
    ZoneLoaded { zone_id: ZoneId },
    /// Zone was unloaded from active simulation.
    ZoneUnloaded { zone_id: ZoneId },
    /// Entity was spawned.
    EntitySpawned { entity_id: EntityId, kind: EntityKind, position: WorldPos, properties: EntityProperties },
    /// Entity was removed.
    EntityDespawned { entity_id: EntityId, reason: DespawnReason },
    /// Entity moved.
    EntityMoved { entity_id: EntityId, from: WorldPos, to: WorldPos },
    /// Entity lifecycle state changed.
    EntityStateChanged { entity_id: EntityId, old_state: EntityState, new_state: EntityState },
    /// A named property changed.
    EntityPropertyChanged { entity_id: EntityId, property: String, old_value: PropertyValue, new_value: PropertyValue },
    /// Resource was consumed.
    ResourceDepleted { entity_id: EntityId, amount: u32, remaining: u32 },
    /// Entity degraded over time.
    EntityDegraded { entity_id: EntityId, old_health: u32, new_health: u32 },
}

/// Reason for an entity despawn.
#[derive(Clone, Copy, Debug, PartialEq, Eq, Structural)]
pub enum DespawnReason {
    /// Removed by command.
    Command,
    /// Died or destroyed.
    Death,
    /// Resource fully depleted.
    Depleted,
    /// Expired (time based).
    Expired,
}

/// Generic property value carried by property-change events. `Float` holds the
/// IEEE-754 bit pattern of a double.
#[derive(Debug, PartialEq, Eq)]
pub enum PropertyValue {
    Unset,
    Int(i64),
    UInt(u64),
    Float(u64),
    Bool(bool),
    String(String),
}

impl Default for PropertyValue {
    fn default() -> (r: Self)
        ensures
            r == PropertyValue::Unset,
    {
        PropertyValue::Unset
    }
}

impl Clone for PropertyValue {
    fn clone(&self) -> (r: Self)
        ensures
            r == *self,
    {
        match self {
            PropertyValue::Unset => PropertyValue::Unset,
            PropertyValue::Int(v) => PropertyValue::Int(*v),
            PropertyValue::UInt(v) => PropertyValue::UInt(*v),
            PropertyValue::Float(v) => PropertyValue::Float(*v),
            PropertyValue::Bool(v) => PropertyValue::Bool(*v),
            PropertyValue::String(s) => PropertyValue::String(s.clone()),
        }
    }
}

impl Clone for EventData {
    fn clone(&self) -> (r: Self)
        ensures
            r == *self,
    {
        match self {
            EventData::WorldCreated { world_id, name, seed } => EventData::WorldCreated {
                world_id: world_id.clone(),
                name: name.clone(),
                seed: *seed,
            },
            EventData::WorldLoaded { world_id, tick } => EventData::WorldLoaded {
                world_id: world_id.clone(),
                tick: *tick,
            },
            EventData::WorldSaved { tick } => EventData::WorldSaved { tick: *tick },
            EventData::TickProcessed { tick, sim_time, entities_processed, rng_state_after } => {
                EventData::TickProcessed {
                    tick: *tick,
                    sim_time: *sim_time,
                    entities_processed: *entities_processed,
                    rng_state_after: *rng_state_after,
                }
            },
            EventData::ZoneCreated { zone_id, name } => EventData::ZoneCreated {
                zone_id: *zone_id,
                name: clone_opt_string(name),
            },
            EventData::ZoneLoaded { zone_id } => EventData::ZoneLoaded { zone_id: *zone_id },
            EventData::ZoneUnloaded { zone_id } => EventData::ZoneUnloaded { zone_id: *zone_id },
            EventData::EntitySpawned { entity_id, kind, position, properties } => {
                EventData::EntitySpawned {
                    entity_id: *entity_id,
                    kind: *kind,
                    position: *position,
                    properties: properties.clone(),
                }
            },
            EventData::EntityDespawned { entity_id, reason } => EventData::EntityDespawned {
                entity_id: *entity_id,
                reason: *reason,
            },
            EventData::EntityMoved { entity_id, from, to } => EventData::EntityMoved {
                entity_id: *entity_id,
                from: *from,
                to: *to,
            },
            EventData::EntityStateChanged { entity_id, old_state, new_state } => {
                EventData::EntityStateChanged {
                    entity_id: *entity_id,
                    old_state: *old_state,
                    new_state: *new_state,
                }
            },
            EventData::EntityPropertyChanged { entity_id, property, old_value, new_value } => {
                EventData::EntityPropertyChanged {
                    entity_id: *entity_id,
                    property: property.clone(),
                    old_value: old_value.clone(),
                    new_value: new_value.clone(),
                }
            },
            EventData::ResourceDepleted { entity_id, amount, remaining } => {
                EventData::ResourceDepleted {
                    entity_id: *entity_id,
                    amount: *amount,
                    remaining: *remaining,
                }
            },
            EventData::EntityDegraded { entity_id, old_health, new_health } => {
                EventData::EntityDegraded {
                    entity_id: *entity_id,
                    old_health: *old_health,
                    new_health: *new_health,
                }
            },
        }
    }
}

impl Clone for SimEvent {
    fn clone(&self) -> (r: Self)
        ensures
            r == *self,
    {
        SimEvent { event_id: self.event_id, tick: self.tick, data: self.data.clone() }
    }
}

} // verus!
