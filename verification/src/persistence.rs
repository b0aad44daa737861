//! Persistence interfaces implemented by storage back ends.
use vstd::prelude::*;

use crate::errors::SimError;
use crate::events::SimEvent;
use crate::snapshot::WorldSnapshot;
use crate::types::{EventId, Tick};
use crate::world::WorldMeta;

verus! {

/// Persistent storage state for a world id.
pub enum WorldStorageStatus {
    /// No durable storage exists for this world id.
    Absent,
    /// Snapshot and metadata are present. The world id must not be created again.
    Complete,
    /// Some durable storage exists, but it is not a coherent persisted world.
    Incomplete { reason: String },
}

/// World persistence: metadata and snapshots, keyed by world id.
pub trait IWorldStore {
    fn has_world(&self, world_id: &str) -> bool;

    /// Whether storage for the world id is absent, complete or incomplete; by
    /// default complete exactly when it exists, and never an error.
    fn storage_status(&self, world_id: &str) -> (r: Result<WorldStorageStatus, SimError>)
        default_ensures
            r matches Ok(s) && (s is Complete || s is Absent),
    {
        if self.has_world(world_id) {
            Ok(WorldStorageStatus::Complete)
        } else {
            Ok(WorldStorageStatus::Absent)
        }
    }

    fn list_worlds(&self) -> Result<Vec<String>, SimError>;

    fn load_meta(&self, world_id: &str) -> Result<WorldMeta, SimError>;

    fn save_meta(&mut self, meta: &WorldMeta) -> Result<(), SimError>;

    fn load_snapshot(&self, world_id: &str) -> Result<WorldSnapshot, SimError>;

    fn save_snapshot(&mut self, world_id: &str, snapshot: &WorldSnapshot) -> Result<(), SimError>;

    fn delete_world(&mut self, world_id: &str) -> Result<(), SimError>;

    fn world_path(&self, world_id: &str) -> String;
}

/// Event log for recording and replaying state-transition events.
pub trait IEventLog {
    fn append(&mut self, event: SimEvent) -> Result<SimEvent, SimError>;

    fn append_batch(&mut self, events: Vec<SimEvent>) -> Result<Vec<SimEvent>, SimError>;

    fn read_from_event_id(&self, from_id: EventId) -> Result<Vec<SimEvent>, SimError>;

    fn read_all_valid(&self) -> Result<Vec<SimEvent>, SimError>;

    fn last_event_id(&self) -> EventId;

    fn last_tick(&self) -> Option<Tick>;

    /// Rewrites the log keeping the events up to `event_id`; ids may be
    /// reassigned.
    fn truncate_after(&mut self, event_id: EventId) -> Result<(), SimError>;

    fn sync(&mut self) -> Result<(), SimError>;

    fn len(&self) -> u64;

    fn is_empty(&self) -> bool {
        self.len() == 0
    }
}

} // verus!
