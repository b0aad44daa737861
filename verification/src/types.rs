//! Stable primitive value types shared by every layer of the kernel.
use vstd::prelude::*;

verus! {

/// Simulation tick: the only canonical clock. Starts at 0, advances by one.
#[derive(Clone, Copy, Debug, PartialEq, Eq, Structural, PartialOrd, Ord, Hash)]
pub struct Tick(pub u64);

impl Tick {
    pub fn zero() -> (r: Tick)
        ensures
            r.0 == 0,
    {
        Tick(0)
    }

    pub fn as_u64(&self) -> (r: u64)
        ensures
            r == self.0,
    {
        self.0
    }

    /// The following tick; the counter saturates at its maximum.
    pub fn next(&self) -> (r: Tick)
        ensures
            r.0 == if self.0 < u64::MAX { self.0 + 1 } else { self.0 as int },
    {
        Tick(self.0.saturating_add(1))
    }
}

/// Derived simulation time: one tick is one unit.
#[derive(Clone, Copy, Debug, PartialEq, Eq, Structural, PartialOrd, Ord, Hash)]
pub struct SimTime {
    pub units: u64,
}

impl SimTime {
    pub fn zero() -> (r: SimTime)
        ensures
            r.units == 0,
    {
        SimTime { units: 0 }
    }

    pub open spec fn spec_from_ticks(tick: Tick) -> SimTime {
        SimTime { units: tick.0 }
    }

    pub fn from_ticks(tick: Tick) -> (r: SimTime)
        ensures
            r == Self::spec_from_ticks(tick),
    {
        SimTime { units: tick.0 }
    }
}

/// Entity identifier. `0` is invalid; allocation starts at 1.
#[derive(Clone, Copy, Debug, PartialEq, Eq, Structural, PartialOrd, Ord, Hash)]
pub struct EntityId(pub u64);

impl EntityId {
    pub fn invalid() -> (r: EntityId)
        ensures
            r.0 == 0,
    {
        EntityId(0)
    }

    pub fn new(id: u64) -> (r: EntityId)
        ensures
            r.0 == id,
    {
        EntityId(id)
    }

    pub fn as_u64(&self) -> (r: u64)
        ensures
            r == self.0,
    {
        self.0
    }

    pub fn is_valid(&self) -> (r: bool)
        ensures
            r == (self.0 != 0),
    {
        self.0 != 0
    }
}

/// Zone identifier. `0` is the origin zone.
#[derive(Clone, Copy, Debug, PartialEq, Eq, Structural, PartialOrd, Ord, Hash)]
pub struct ZoneId(pub u32);

impl ZoneId {
    /// The origin zone, created with every world.
    pub fn origin() -> (r: ZoneId)
        ensures
            r.0 == 0,
    {
        ZoneId(0)
    }

    pub fn new(id: u32) -> (r: ZoneId)
        ensures
            r.0 == id,
    {
        ZoneId(id)
    }

    pub fn as_u32(&self) -> (r: u32)
        ensures
            r == self.0,
    {
        self.0
    }
}

/// Event identifier assigned by the write-ahead log. `0` means "not yet assigned".
#[derive(Clone, Copy, Debug, PartialEq, Eq, Structural, PartialOrd, Ord, Hash)]
pub struct EventId(pub u64);

impl EventId {
    pub fn zero() -> (r: EventId)
        ensures
            r.0 == 0,
    {
        EventId(0)
    }

    pub fn new(id: u64) -> (r: EventId)
        ensures
            r.0 == id,
    {
        EventId(id)
    }

    pub fn as_u64(&self) -> (r: u64)
        ensures
            r == self.0,
    {
        self.0
    }

    /// The following identifier; the counter saturates at its maximum.
    pub fn next(&self) -> (r: EventId)
        ensures
            r.0 == if self.0 < u64::MAX { self.0 + 1 } else { self.0 as int },
    {
        EventId(self.0.saturating_add(1))
    }
}

/// Mandatory seed of a world's deterministic random stream.
#[derive(Clone, Copy, Debug, PartialEq, Eq, Structural, PartialOrd, Ord, Hash)]
pub struct RngSeed(pub u64);

impl RngSeed {
    pub fn new(seed: u64) -> (r: RngSeed)
        ensures
            r.0 == seed,
    {
        RngSeed(seed)
    }

    pub fn as_u64(&self) -> (r: u64)
        ensures
            r == self.0,
    {
        self.0
    }
}

/// Zone-local position.
#[derive(Clone, Copy, Debug, PartialEq, Eq, Structural, Hash)]
pub struct Position {
    pub x: i32,
    pub y: i32,
    pub z: i32,
}

impl Position {
    pub fn new(x: i32, y: i32, z: i32) -> (r: Position)
        ensures
            r == (Position { x, y, z }),
    {
        Position { x, y, z }
    }
}

/// A position inside a zone.
#[derive(Clone, Copy, Debug, PartialEq, Eq, Structural, Hash)]
pub struct WorldPos {
    pub zone: ZoneId,
    pub pos: Position,
}

impl WorldPos {
    pub fn new(zone: ZoneId, pos: Position) -> (r: WorldPos)
        ensures
            r == (WorldPos { zone, pos }),
    {
        WorldPos { zone, pos }
    }

    pub open spec fn spec_origin() -> WorldPos {
        WorldPos { zone: ZoneId(0), pos: Position { x: 0, y: 0, z: 0 } }
    }

    pub fn origin() -> (r: WorldPos)
        ensures
            r == Self::spec_origin(),
    {
        WorldPos { zone: ZoneId(0), pos: Position { x: 0, y: 0, z: 0 } }
    }
}

/// What an entity is.
#[derive(Clone, Copy, Debug, PartialEq, Eq, Structural, Hash)]
pub enum EntityKind {
    Resource,
    Creature,
    Item,
    Structure,
}

/// Lifecycle state of an entity.
#[derive(Clone, Copy, Debug, PartialEq, Eq, Structural, Hash)]
pub enum EntityState {
    Active,
    Dormant,
    Dead,
}

} // verus!
