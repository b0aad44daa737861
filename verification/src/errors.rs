//! Typed errors of the kernel.
use vstd::prelude::*;

use crate::replay::ReplayError;
use crate::types::{EntityId, EventId, SimTime, Tick, ZoneId};

verus! {

/// A rejected input, with the field it concerns.
#[derive(Clone, Copy, Debug, PartialEq, Eq, Structural)]
pub enum ValidationError {
    /// `world_id`: World ID cannot be empty.
    WorldIdEmpty,
    /// `world_id`: World ID cannot contain path traversal.
    WorldIdPathTraversal,
    /// `world_id`: World ID cannot contain path separators or NUL.
    WorldIdSeparator,
    /// `world_id`: World ID cannot contain drive or scheme separators.
    WorldIdDriveSeparator,
    /// `world_id`: World ID must use only ASCII letters, numbers, '_' or '-'.
    WorldIdCharset,
    /// `n`: Tick count must be > 0.
    TickCountZero,
    /// `n`: Tick count too large (max 10000).
    TickCountTooLarge,
    /// `name`: World name cannot be empty.
    WorldNameEmpty,
    /// `name`: World name too long (max 64 chars).
    WorldNameTooLong,
    /// `name`: Zone name too long (max 64 chars).
    ZoneNameTooLong,
}

/// The name of the field a validation error concerns.
pub open spec fn field_of(e: ValidationError) -> Seq<char> {
    match e {
        ValidationError::WorldIdEmpty | ValidationError::WorldIdPathTraversal | ValidationError::WorldIdSeparator
        | ValidationError::WorldIdDriveSeparator | ValidationError::WorldIdCharset => "world_id"@,
        ValidationError::TickCountZero | ValidationError::TickCountTooLarge => "n"@,
        ValidationError::WorldNameEmpty | ValidationError::WorldNameTooLong | ValidationError::ZoneNameTooLong => "name"@,
    }
}

/// The explanation of a validation error.
pub open spec fn message_of(e: ValidationError) -> Seq<char> {
    match e {
        ValidationError::WorldIdEmpty => "World ID cannot be empty"@,
        ValidationError::WorldIdPathTraversal => "World ID cannot contain path traversal"@,
        ValidationError::WorldIdSeparator => "World ID cannot contain path separators or NUL"@,
        ValidationError::WorldIdDriveSeparator => "World ID cannot contain drive or scheme separators"@,
        ValidationError::WorldIdCharset => "World ID must use only ASCII letters, numbers, '_' or '-'"@,
        ValidationError::TickCountZero => "Tick count must be > 0"@,
        ValidationError::TickCountTooLarge => "Tick count too large (max 10000)"@,
        ValidationError::WorldNameEmpty => "World name cannot be empty"@,
        ValidationError::WorldNameTooLong => "World name too long (max 64 chars)"@,
        ValidationError::ZoneNameTooLong => "Zone name too long (max 64 chars)"@,
    }
}

impl ValidationError {
    /// The name of the rejected field.
    pub fn field(&self) -> (r: &'static str)
        ensures
            r@ == field_of(*self),
    {
        match self {
            ValidationError::WorldIdEmpty
            | ValidationError::WorldIdPathTraversal
            | ValidationError::WorldIdSeparator
            | ValidationError::WorldIdDriveSeparator
            | ValidationError::WorldIdCharset => "world_id",
            ValidationError::TickCountZero | ValidationError::TickCountTooLarge => "n",
            ValidationError::WorldNameEmpty
            | ValidationError::WorldNameTooLong
            | ValidationError::ZoneNameTooLong => "name",
        }
    }

    /// A human-readable explanation.
    pub fn message(&self) -> (r: &'static str)
        ensures
            r@ == message_of(*self),
    {
        match self {
            ValidationError::WorldIdEmpty => "World ID cannot be empty",
            ValidationError::WorldIdPathTraversal => "World ID cannot contain path traversal",
            ValidationError::WorldIdSeparator => "World ID cannot contain path separators or NUL",
            ValidationError::WorldIdDriveSeparator => "World ID cannot contain drive or scheme separators",
            ValidationError::WorldIdCharset => "World ID must use only ASCII letters, numbers, '_' or '-'",
            ValidationError::TickCountZero => "Tick count must be > 0",
            ValidationError::TickCountTooLarge => "Tick count too large (max 10000)",
            ValidationError::WorldNameEmpty => "World name cannot be empty",
            ValidationError::WorldNameTooLong => "World name too long (max 64 chars)",
            ValidationError::ZoneNameTooLong => "Zone name too long (max 64 chars)",
        }
    }
}

/// A record of the write-ahead log that cannot be read.
#[allow(inconsistent_fields)]
#[derive(Clone, Copy, Debug, PartialEq, Eq, Structural)]
pub enum WalError {
    /// Fewer bytes remain than a field needs.
    Truncated,
    /// The record does not start with the log's magic number.
    InvalidMagic { found: u32 },
    /// The record's format version is not supported.
    UnsupportedVersion { found: u16 },
    /// The declared payload is larger than a record may hold.
    PayloadTooLarge { len: u32 },
    /// The declared payload and checksum run past the end of the data.
    LengthBeyondEnd { required: u64, available: u64 },
    /// The stored checksum does not match the record's contents.
    CrcMismatch { stored: u32, computed: u32 },
    /// The payload does not hold a batch of events.
    InvalidPayload,
    /// The batch holds no events.
    EmptyBatch,
    /// The header's cursor is not the batch's last event.
    HeaderMismatch { header_event_id: u64, header_tick: u64, last_event_id: u64, last_tick: u64 },
    /// Appending would run the event ids past the largest `u64`.
    EventIdsExhausted,
}

/// Persistent state that contradicts itself.
#[allow(inconsistent_fields)]
#[derive(Debug, PartialEq, Eq)]
pub enum Corruption {
    MetaTickMismatch { meta_tick: Tick, tick: Tick },
    SnapshotTickMismatch { snapshot_tick: Tick, tick: Tick },
    MetaSimTimeMismatch { meta_sim_time: SimTime, sim_time: SimTime },
    SimTimeMismatch { sim_time: SimTime, expected: SimTime, tick: Tick },
    NextEntityIdZero,
    NextEntityIdNotAbove { next_entity_id: u64, max_entity_id: u64 },
    EntityKeyMismatch { key: EntityId, id: EntityId },
    InvalidEntityId,
    EntitiesOutOfOrder { key: EntityId },
    ZoneKeyMismatch { key: ZoneId, id: ZoneId },
    ZonesOutOfOrder { key: ZoneId },
    EntityInMissingZone { entity: EntityId, zone: ZoneId },
    DuplicateZoneEntity { zone: ZoneId, entity: EntityId },
    ZoneReferencesMissingEntity { zone: ZoneId, entity: EntityId },
    ZoneEntityElsewhere { zone: ZoneId, entity: EntityId, position_zone: ZoneId },
    ZoneIndexMismatch { zone: ZoneId },
    WorldIdMismatch { requested: String, snapshot: String },
    MetaMismatch,
    WalBehindSnapshot { wal_last_event_id: EventId, snapshot_last_event_id: EventId },
    WalCursorMismatch { announced: EventId, durable: EventId },
    WalNotContiguous { expected: EventId, found: EventId },
    ReplayRangeIncomplete { expected: EventId, found: EventId },
    ReplayRangeShort { next_expected: EventId, wal_last_event_id: EventId },
    UnreplayableEvent { event_id: EventId },
    ReplayFailed { event_id: EventId, error: ReplayError },
}

/// Errors of persistence and recovery.
#[derive(Debug, PartialEq, Eq)]
pub enum SimError {
    /// The requested item does not exist.
    NotFound(String),
    /// An input/output failure, with the platform's description.
    PersistenceError(String),
    /// A world identifier that is not a safe storage key.
    InvalidWorldId { world_id: String, errors: Vec<ValidationError> },
    /// A world identifier that the library accepted, refused by the store or
    /// the log with its own `InvalidWorldId`.
    StoreRejectedWorldId { world_id: String, errors: Vec<ValidationError> },
    /// A snapshot in a format other than the current one.
    UnsupportedFormat { found: u32, current: u32 },
    /// A write-ahead-log record that cannot be read.
    Wal(WalError),
    /// Some durable storage exists for the world id, but not a coherent
    /// persisted world.
    IncompleteStorage { world_id: String, reason: String },
    /// The log already holds durable events, so no world can be created on it.
    WalNotEmpty { world_id: String, events: u64 },
    /// Persistent state that contradicts itself.
    CorruptedState(Corruption),
}

/// Errors returned by the simulation and the persistent runtime.
#[derive(Debug, PartialEq, Eq)]
pub enum ApiError {
    /// The command failed validation; nothing changed.
    ValidationFailed(Vec<ValidationError>),
    /// A world with this id already exists (or is already loaded).
    WorldAlreadyExists(String),
    /// No persisted world with this id.
    WorldNotFound(String),
    /// The command needs a loaded world.
    NoWorldLoaded,
    ZoneNotFound(ZoneId),
    ZoneAlreadyExists(ZoneId),
    EntityNotFound(EntityId),
    /// Persistence failed.
    StorageError(SimError),
    /// The command would overflow a counter of the machine (entity ids, or
    /// the entity count reported by a tick).
    LimitReached,
}

} // verus!
