//! Commands: the single aperture through which world state may change.
use vstd::prelude::*;

use crate::types::{EntityId, EntityKind, RngSeed, WorldPos, ZoneId};

verus! {

/// Commands accepted by the pure simulation core.
#[derive(Debug)]
pub enum SimCommand {
    /// Create a new world with the given seed.
    CreateWorld(CreateWorldCmd),
    /// Advance the simulation by one tick.
    Tick,
    /// Advance the simulation by N ticks.
    TickN(u32),
    /// Spawn an entity in the world.
    SpawnEntity(SpawnEntityCmd),
    /// Remove an entity from the world.
    DespawnEntity(EntityId),
    /// Create a new zone.
    CreateZone(CreateZoneCmd),
}

/// Command to create a new world.
#[derive(Debug)]
pub struct CreateWorldCmd {
    /// Human-readable name.
    pub name: String,
    /// Seed of the world's deterministic random stream.
    pub seed: RngSeed,
}

/// Command to spawn an entity.
#[derive(Debug)]
pub struct SpawnEntityCmd {
    pub position: WorldPos,
    pub kind: EntityKind,
    pub properties: EntityProperties,
}

/// Entity properties (simple key-value record).
#[derive(Debug, PartialEq, Eq)]
pub struct EntityProperties {
    /// Display name (optional).
    pub name: Option<String>,
    /// Amount/quantity (for resources).
    pub amount: Option<u32>,
    /// Health/durability (for creatures/structures).
    pub health: Option<u32>,
}

/// Command to create a new zone.
#[derive(Debug)]
pub struct CreateZoneCmd {
    pub zone_id: ZoneId,
    pub name: Option<String>,
}

/// Clones an optional string exactly.
pub fn clone_opt_string(s: &Option<String>) -> (r: Option<String>)
    ensures
        r == *s,
{
    match s {
        Some(v) => Some(v.clone()),
        None => None,
    }
}

impl Clone for EntityProperties {
    fn clone(&self) -> (r: Self)
        ensures
            r == *self,
    {
        EntityProperties {
            name: clone_opt_string(&self.name),
            amount: self.amount,
            health: self.health,
        }
    }
}

impl Default for EntityProperties {
    fn default() -> (r: Self)
        ensures
            r == (EntityProperties { name: None, amount: None, health: None }),
    {
        EntityProperties { name: None, amount: None, health: None }
    }
}

impl Clone for CreateWorldCmd {
    fn clone(&self) -> (r: Self)
        ensures
            r == *self,
    {
        CreateWorldCmd { name: self.name.clone(), seed: self.seed }
    }
}

impl Clone for SpawnEntityCmd {
    fn clone(&self) -> (r: Self)
        ensures
            r == *self,
    {
        SpawnEntityCmd { position: self.position, kind: self.kind, properties: self.properties.clone() }
    }
}

impl Clone for CreateZoneCmd {
    fn clone(&self) -> (r: Self)
        ensures
            r == *self,
    {
        CreateZoneCmd { zone_id: self.zone_id, name: clone_opt_string(&self.name) }
    }
}

impl Clone for SimCommand {
    fn clone(&self) -> (r: Self)
        ensures
            r == *self,
    {
        match self {
            SimCommand::CreateWorld(c) => SimCommand::CreateWorld(c.clone()),
            SimCommand::Tick => SimCommand::Tick,
            SimCommand::TickN(n) => SimCommand::TickN(*n),
            SimCommand::SpawnEntity(c) => SimCommand::SpawnEntity(c.clone()),
            SimCommand::DespawnEntity(id) => SimCommand::DespawnEntity(*id),
            SimCommand::CreateZone(c) => SimCommand::CreateZone(c.clone()),
        }
    }
}

} // verus!
