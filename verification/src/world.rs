//! World state: metadata, counters, and the ordered entity and zone tables.
use vstd::prelude::*;

use crate::commands::{clone_opt_string, EntityProperties};
use crate::keyed::{
    insert_position, keyed_map, keys_increasing, lemma_keyed_absent,
    lemma_keyed_index, lemma_keyed_insert, lemma_keyed_remove, lemma_keyed_update, Keyed,
};
use crate::text::{origin_name, origin_name_chars, world_id_chars, world_id_for_seed};
use crate::types::{EntityId, EntityKind, EntityState, EventId, RngSeed, SimTime, Tick, WorldPos, ZoneId};

verus! {

/// Snapshot format understood by this kernel; any other version is refused.
pub const CURRENT_FORMAT_VERSION: u32 = 3;

/// Persistent world metadata.
#[derive(Debug, PartialEq, Eq)]
pub struct WorldMeta {
    pub world_id: String,
    pub name: String,
    pub seed: RngSeed,
    pub current_tick: Tick,
    pub sim_time: SimTime,
    pub created_tick: Tick,
    /// Tick at which the last snapshot was taken (recovery cursor).
    pub snapshot_tick: Tick,
    /// Last event included in the last snapshot (recovery cursor).
    pub last_event_id: EventId,
    pub format_version: u32,
}

impl Clone for WorldMeta {
    fn clone(&self) -> (r: Self)
        ensures
            r == *self,
    {
        WorldMeta {
            world_id: self.world_id.clone(),
            name: self.name.clone(),
            seed: self.seed,
            current_tick: self.current_tick,
            sim_time: self.sim_time,
            created_tick: self.created_tick,
            snapshot_tick: self.snapshot_tick,
            last_event_id: self.last_event_id,
            format_version: self.format_version,
        }
    }
}

/// An entity of the world.
#[derive(Debug, PartialEq, Eq)]
pub struct Entity {
    pub id: EntityId,
    pub kind: EntityKind,
    pub state: EntityState,
    pub position: WorldPos,
    pub created_at: Tick,
    pub properties: EntityProperties,
}

impl Clone for Entity {
    fn clone(&self) -> (r: Self)
        ensures
            r == *self,
    {
        Entity {
            id: self.id,
            kind: self.kind,
            state: self.state,
            position: self.position,
            created_at: self.created_at,
            properties: self.properties.clone(),
        }
    }
}

impl Keyed for Entity {
    open spec fn key(&self) -> int {
        self.id.0 as int
    }
}

impl Entity {
    /// A new, active entity.
    pub fn new(
        id: EntityId,
        kind: EntityKind,
        position: WorldPos,
        created_at: Tick,
        properties: EntityProperties,
    ) -> (r: Entity)
        ensures
            r == (Entity { id, kind, state: EntityState::Active, position, created_at, properties }),
    {
        Entity { id, kind, state: EntityState::Active, position, created_at, properties }
    }

    pub fn is_active(&self) -> (r: bool)
        ensures
            r == (self.state == EntityState::Active),
    {
        self.state == EntityState::Active
    }

    pub fn is_dead(&self) -> (r: bool)
        ensures
            r == (self.state == EntityState::Dead),
    {
        self.state == EntityState::Dead
    }
}

/// Abstract value of a zone.
#[verifier::ext_equal]
pub struct ZoneView {
    pub id: ZoneId,
    pub name: Option<String>,
    pub loaded: bool,
    pub entities: Seq<EntityId>,
}

impl Keyed for ZoneView {
    open spec fn key(&self) -> int {
        self.id.0 as int
    }
}

/// A zone: a named region holding an ordered index of the entities in it.
#[derive(Debug, PartialEq, Eq)]
pub struct Zone {
    pub id: ZoneId,
    pub name: Option<String>,
    pub loaded: bool,
    pub entities: Vec<EntityId>,
}

impl View for Zone {
    type V = ZoneView;

    open spec fn view(&self) -> ZoneView {
        ZoneView { id: self.id, name: self.name, loaded: self.loaded, entities: self.entities@ }
    }
}

/// The index with every occurrence of `id` removed.
pub open spec fn remove_all(s: Seq<EntityId>, id: EntityId) -> Seq<EntityId>
    decreases s.len(),
{
    if s.len() == 0 {
        s
    } else {
        let r = remove_all(s.drop_last(), id);
        if s.last() == id {
            r
        } else {
            r.push(s.last())
        }
    }
}

pub open spec fn zone_with_entity(z: ZoneView, id: EntityId) -> ZoneView {
    if z.entities.contains(id) {
        z
    } else {
        ZoneView { id: z.id, name: z.name, loaded: z.loaded, entities: z.entities.push(id) }
    }
}

pub open spec fn zone_without_entity(z: ZoneView, id: EntityId) -> ZoneView {
    ZoneView { id: z.id, name: z.name, loaded: z.loaded, entities: remove_all(z.entities, id) }
}

impl Clone for Zone {
    fn clone(&self) -> (r: Self)
        ensures
            r@ == self@,
    {
        let entities = self.entities.clone();
        assert(entities@ =~= self.entities@);
        Zone { id: self.id, name: clone_opt_string(&self.name), loaded: self.loaded, entities }
    }
}

impl Zone {
    /// A new, loaded, empty zone.
    pub fn new(id: ZoneId, name: Option<String>) -> (r: Zone)
        ensures
            r@ == (ZoneView { id, name, loaded: true, entities: Seq::empty() }),
    {
        Zone { id, name, loaded: true, entities: Vec::new() }
    }

    pub fn contains_entity(&self, id: EntityId) -> (r: bool)
        ensures
            r == self.entities@.contains(id),
    {
        let mut i: usize = 0;
        while i < self.entities.len()
            invariant
                i <= self.entities@.len(),
                forall|j: int| 0 <= j < i ==> self.entities@[j] != id,
            decreases self.entities@.len() - i,
        {
            if self.entities[i] == id {
                return true;
            }
            i = i + 1;
        }
        false
    }

    /// Adds an entity to the index unless it is already there.
    pub fn add_entity(&mut self, id: EntityId)
        ensures
            final(self)@ == zone_with_entity(old(self)@, id),
    {
        if !self.contains_entity(id) {
            self.entities.push(id);
        }
    }

    /// Removes every occurrence of an entity from the index.
    pub fn remove_entity(&mut self, id: EntityId)
        ensures
            final(self)@ == zone_without_entity(old(self)@, id),
    {
        let mut kept: Vec<EntityId> = Vec::new();
        let mut i: usize = 0;
        while i < self.entities.len()
            invariant
                i <= self.entities@.len(),
                kept@ == remove_all(self.entities@.take(i as int), id),
            decreases self.entities@.len() - i,
        {
            proof {
                assert(self.entities@.take(i + 1).drop_last() =~= self.entities@.take(i as int));
            }
            if self.entities[i] != id {
                kept.push(self.entities[i]);
            }
            i = i + 1;
        }
        assert(self.entities@.take(self.entities@.len() as int) =~= self.entities@);
        self.entities = kept;
    }
}

/// Abstract value of a world: metadata, counters, and the entity and zone
/// tables as maps from id to value.
#[verifier::ext_equal]
pub struct WorldView {
    pub meta: WorldMeta,
    pub current_tick: Tick,
    pub sim_time: SimTime,
    pub rng_state: u64,
    pub next_entity_id: u64,
    pub entities: Map<int, Entity>,
    pub zones: Map<int, ZoneView>,
}

/// Complete persistent simulation state. Entities and zones are stored in
/// ascending id order, so every traversal is deterministic.
#[derive(Debug, PartialEq, Eq)]
pub struct World {
    pub meta: WorldMeta,
    pub current_tick: Tick,
    pub sim_time: SimTime,
    pub rng_state: u64,
    pub next_entity_id: u64,
    pub entities: Vec<Entity>,
    pub zones: Vec<Zone>,
}

impl View for World {
    type V = WorldView;

    open spec fn view(&self) -> WorldView {
        WorldView {
            meta: self.meta,
            current_tick: self.current_tick,
            sim_time: self.sim_time,
            rng_state: self.rng_state,
            next_entity_id: self.next_entity_id,
            entities: keyed_map(self.entities@),
            zones: keyed_map(self.zone_views()),
        }
    }
}

impl WorldView {
    /// The world after inserting (or replacing) an entity and indexing it in
    /// its zone, when that zone exists.
    pub open spec fn with_entity(self, e: Entity) -> WorldView {
        let zk = e.position.zone.0 as int;
        WorldView {
            entities: self.entities.insert(e.id.0 as int, e),
            zones: if self.zones.contains_key(zk) {
                self.zones.insert(zk, zone_with_entity(self.zones[zk], e.id))
            } else {
                self.zones
            },
            ..self
        }
    }

    /// The world after removing an entity and dropping it from its zone index.
    pub open spec fn without_entity(self, id: EntityId) -> WorldView {
        let k = id.0 as int;
        if self.entities.contains_key(k) {
            let zk = self.entities[k].position.zone.0 as int;
            WorldView {
                entities: self.entities.remove(k),
                zones: if self.zones.contains_key(zk) {
                    self.zones.insert(zk, zone_without_entity(self.zones[zk], id))
                } else {
                    self.zones
                },
                ..self
            }
        } else {
            self
        }
    }

    /// The world one tick later (counters saturate at their maximum).
    pub open spec fn advanced(self) -> WorldView {
        let t = if self.current_tick.0 < u64::MAX { Tick((self.current_tick.0 + 1) as u64) } else { self.current_tick };
        let st = SimTime { units: t.0 };
        WorldView {
            current_tick: t,
            sim_time: st,
            meta: WorldMeta { current_tick: t, sim_time: st, ..self.meta },
            ..self
        }
    }
}

/// The world created from a name and a seed: tick 0, no entities, and the
/// loaded origin zone named "Origin".
pub open spec fn new_world_ok(w: World, name: String, seed: RngSeed) -> bool {
    &&& w.meta.world_id@ == world_id_chars(seed.0)
    &&& w.meta.name == name
    &&& w.meta.seed == seed
    &&& w.meta.current_tick.0 == 0
    &&& w.meta.sim_time.units == 0
    &&& w.meta.created_tick.0 == 0
    &&& w.meta.snapshot_tick.0 == 0
    &&& w.meta.last_event_id.0 == 0
    &&& w.meta.format_version == CURRENT_FORMAT_VERSION
    &&& w.current_tick.0 == 0
    &&& w.sim_time.units == 0
    &&& w.rng_state == seed.0
    &&& w.next_entity_id == 1
    &&& w.entities@.len() == 0
    &&& w.zones@.len() == 1
    &&& w.zones@[0].id.0 == 0
    &&& w.zones@[0].name matches Some(n) && n@ == origin_name_chars()
    &&& w.zones@[0].loaded
    &&& w.zones@[0].entities@.len() == 0
}

impl Clone for World {
    fn clone(&self) -> (r: Self)
        ensures
            r.meta == self.meta,
            r.current_tick == self.current_tick,
            r.sim_time == self.sim_time,
            r.rng_state == self.rng_state,
            r.next_entity_id == self.next_entity_id,
            r.entities@ == self.entities@,
            r.zone_views() == self.zone_views(),
            r@ == self@,
    {
        let entities = self.entities.clone();
        assert(entities@ =~= self.entities@);
        let mut zones: Vec<Zone> = Vec::new();
        let mut i: usize = 0;
        while i < self.zones.len()
            invariant
                i <= self.zones@.len(),
                zones@.len() == i,
                forall|j: int| 0 <= j < i ==> (#[trigger] zones@[j])@ == self.zones@[j]@,
            decreases self.zones@.len() - i,
        {
            zones.push(self.zones[i].clone());
            i = i + 1;
        }
        let r = World {
            meta: self.meta.clone(),
            current_tick: self.current_tick,
            sim_time: self.sim_time,
            rng_state: self.rng_state,
            next_entity_id: self.next_entity_id,
            entities,
            zones,
        };
        assert(r.zone_views() =~= self.zone_views());
        r
    }
}

impl World {
    pub open spec fn zone_views(&self) -> Seq<ZoneView> {
        self.zones@.map_values(|z: Zone| z@)
    }

    /// Entities and zones are each stored in strictly ascending id order.
    pub open spec fn wf(&self) -> bool {
        &&& keys_increasing(self.entities@)
        &&& keys_increasing(self.zone_views())
    }

    /// A new world at tick 0 with the origin zone.
    pub fn new(name: String, seed: RngSeed) -> (r: World)
        ensures
            new_world_ok(r, name, seed),
            r.wf(),
    {
        let meta = WorldMeta {
            world_id: world_id_for_seed(seed.0),
            name,
            seed,
            current_tick: Tick(0),
            sim_time: SimTime { units: 0 },
            created_tick: Tick(0),
            snapshot_tick: Tick(0),
            last_event_id: EventId(0),
            format_version: CURRENT_FORMAT_VERSION,
        };
        let mut zones: Vec<Zone> = Vec::new();
        zones.push(Zone::new(ZoneId(0), Some(origin_name())));
        let w = World {
            meta,
            current_tick: Tick(0),
            sim_time: SimTime { units: 0 },
            rng_state: seed.0,
            next_entity_id: 1,
            entities: Vec::new(),
            zones,
        };
        assert(w.zone_views().len() == 1);
        w
    }

    /// The world identifier.
    pub fn id(&self) -> (r: &str)
        ensures
            r@ == self.meta.world_id@,
    {
        self.meta.world_id.as_str()
    }

    pub fn entity_count(&self) -> (r: usize)
        ensures
            r == self.entities@.len(),
    {
        self.entities.len()
    }

    pub fn zone_count(&self) -> (r: usize)
        ensures
            r == self.zones@.len(),
    {
        self.zones.len()
    }

    /// Position of an entity in the table.
    pub fn find_entity(&self, id: EntityId) -> (r: Option<usize>)
        ensures
            match r {
                Some(i) => i < self.entities@.len() && self.entities@[i as int].id == id,
                None => forall|i: int| 0 <= i < self.entities@.len() ==> (#[trigger] self.entities@[i]).id != id,
            },
            self.wf() ==> (r is Some <==> self@.entities.contains_key(id.0 as int)),
            self.wf() ==> (r matches Some(i) ==> self@.entities[id.0 as int] == self.entities@[i as int]),
    {
        let mut i: usize = 0;
        while i < self.entities.len()
            invariant
                i <= self.entities@.len(),
                forall|j: int| 0 <= j < i ==> (#[trigger] self.entities@[j]).id != id,
            decreases self.entities@.len() - i,
        {
            if self.entities[i].id == id {
                proof {
                    if self.wf() {
                        lemma_keyed_index(self.entities@, i as int);
                    }
                }
                return Some(i);
            }
            i = i + 1;
        }
        proof {
            lemma_keyed_absent(self.entities@, id.0 as int);
        }
        None
    }

    /// Position of a zone in the table.
    pub fn find_zone(&self, id: ZoneId) -> (r: Option<usize>)
        ensures
            match r {
                Some(i) => i < self.zones@.len() && self.zones@[i as int].id == id,
                None => forall|i: int| 0 <= i < self.zones@.len() ==> (#[trigger] self.zones@[i]).id != id,
            },
            self.wf() ==> (r is Some <==> self@.zones.contains_key(id.0 as int)),
            self.wf() ==> (r matches Some(i) ==> self@.zones[id.0 as int] == self.zones@[i as int]@),
    {
        let mut i: usize = 0;
        while i < self.zones.len()
            invariant
                i <= self.zones@.len(),
                forall|j: int| 0 <= j < i ==> (#[trigger] self.zones@[j]).id != id,
            decreases self.zones@.len() - i,
        {
            if self.zones[i].id == id {
                proof {
                    if self.wf() {
                        lemma_keyed_index(self.zone_views(), i as int);
                    }
                }
                return Some(i);
            }
            i = i + 1;
        }
        proof {
            assert forall|j: int| 0 <= j < self.zone_views().len() implies (#[trigger] self.zone_views()[j]).key() != id.0 as int by {
                assert(self.zones@[j].id != id);
            }
            lemma_keyed_absent(self.zone_views(), id.0 as int);
        }
        None
    }

    pub fn get_entity(&self, id: EntityId) -> (r: Option<&Entity>)
        requires
            self.wf(),
        ensures
            match r {
                Some(e) => self@.entities.contains_key(id.0 as int) && *e == self@.entities[id.0 as int],
                None => !self@.entities.contains_key(id.0 as int),
            },
    {
        match self.find_entity(id) {
            Some(i) => Some(&self.entities[i]),
            None => None,
        }
    }

    pub fn get_zone(&self, id: ZoneId) -> (r: Option<&Zone>)
        requires
            self.wf(),
        ensures
            match r {
                Some(z) => self@.zones.contains_key(id.0 as int) && z@ == self@.zones[id.0 as int],
                None => !self@.zones.contains_key(id.0 as int),
            },
    {
        match self.find_zone(id) {
            Some(i) => Some(&self.zones[i]),
            None => None,
        }
    }

    pub fn has_zone(&self, id: ZoneId) -> (r: bool)
        requires
            self.wf(),
        ensures
            r == self@.zones.contains_key(id.0 as int),
    {
        self.find_zone(id).is_some()
    }

    /// Takes the next entity id and advances the allocator.
    pub fn allocate_entity_id(&mut self) -> (r: EntityId)
        requires
            old(self).next_entity_id < u64::MAX,
        ensures
            r.0 == old(self).next_entity_id,
            final(self)@ == (WorldView { next_entity_id: (old(self).next_entity_id + 1) as u64, ..old(self)@ }),
            final(self).entities@ == old(self).entities@,
            final(self).zone_views() == old(self).zone_views(),
    {
        let id = EntityId(self.next_entity_id);
        self.next_entity_id = self.next_entity_id + 1;
        id
    }

    /// Advances the world clock by one tick.
    pub fn advance_tick(&mut self)
        ensures
            final(self)@ == old(self)@.advanced(),
            final(self).entities@ == old(self).entities@,
            final(self).zone_views() == old(self).zone_views(),
    {
        let t = self.current_tick.next();
        let st = SimTime::from_ticks(t);
        self.current_tick = t;
        self.sim_time = st;
        self.meta.current_tick = t;
        self.meta.sim_time = st;
    }

    /// Replaces the entity at a position by one with the same id.
    pub fn put_entity_at(&mut self, i: usize, e: Entity)
        requires
            old(self).wf(),
            i < old(self).entities@.len(),
            old(self).entities@[i as int].id == e.id,
        ensures
            final(self).wf(),
            final(self)@ == (WorldView { entities: old(self)@.entities.insert(e.id.0 as int, e), ..old(self)@ }),
            final(self).zone_views() == old(self).zone_views(),
            final(self).entities@ == old(self).entities@.update(i as int, e),
    {
        proof {
            lemma_keyed_update(self.entities@, i as int, e);
        }
        self.entities.set(i, e);
    }

    /// Replaces the zone at a position by one with the same id.
    pub fn put_zone_at(&mut self, i: usize, z: Zone)
        requires
            old(self).wf(),
            i < old(self).zones@.len(),
            old(self).zones@[i as int].id == z.id,
        ensures
            final(self).wf(),
            final(self)@ == (WorldView { zones: old(self)@.zones.insert(z.id.0 as int, z@), ..old(self)@ }),
            final(self).entities@ == old(self).entities@,
            final(self).zone_views() == old(self).zone_views().update(i as int, z@),
    {
        proof {
            lemma_keyed_update(self.zone_views(), i as int, z@);
        }
        let ghost zv = z@;
        self.zones.set(i, z);
        assert(self.zone_views() =~= old(self).zone_views().update(i as int, zv));
    }

    /// Adds an entity to the index of the zone at a position.
    fn zone_add_entity_at(&mut self, i: usize, id: EntityId)
        requires
            old(self).wf(),
            i < old(self).zones@.len(),
        ensures
            final(self).wf(),
            final(self)@ == (WorldView {
                zones: old(self)@.zones.insert(old(self).zones@[i as int].id.0 as int, zone_with_entity(old(self).zones@[i as int]@, id)),
                ..old(self)@
            }),
            final(self).entities@ == old(self).entities@,
    {
        let mut z = self.zones[i].clone();
        z.add_entity(id);
        self.put_zone_at(i, z);
    }

    /// Drops an entity from the index of the zone at a position.
    fn zone_remove_entity_at(&mut self, i: usize, id: EntityId)
        requires
            old(self).wf(),
            i < old(self).zones@.len(),
        ensures
            final(self).wf(),
            final(self)@ == (WorldView {
                zones: old(self)@.zones.insert(old(self).zones@[i as int].id.0 as int, zone_without_entity(old(self).zones@[i as int]@, id)),
                ..old(self)@
            }),
            final(self).entities@ == old(self).entities@,
    {
        let mut z = self.zones[i].clone();
        z.remove_entity(id);
        self.put_zone_at(i, z);
    }

    fn entity_insert_position(&self, key: u64) -> (p: usize)
        requires
            self.wf(),
            forall|i: int| 0 <= i < self.entities@.len() ==> (#[trigger] self.entities@[i]).key() != key as int,
        ensures
            insert_position(self.entities@, key as int, p as int),
    {
        let mut i: usize = 0;
        while i < self.entities.len() && self.entities[i].id.0 < key
            invariant
                self.wf(),
                i <= self.entities@.len(),
                forall|j: int| 0 <= j < i ==> (#[trigger] self.entities@[j]).key() < key as int,
            decreases self.entities@.len() - i,
        {
            i = i + 1;
        }
        proof {
            assert forall|j: int| i <= j < self.entities@.len() implies (#[trigger] self.entities@[j]).key() > key as int by {
                if j > i {
                    assert(self.entities@[i as int].key() < self.entities@[j].key());
                }
                assert(self.entities@[j].key() != key as int);
            }
        }
        i
    }

    fn zone_insert_position(&self, key: u32) -> (p: usize)
        requires
            self.wf(),
            forall|i: int| 0 <= i < self.zones@.len() ==> (#[trigger] self.zones@[i]).id.0 != key,
        ensures
            insert_position(self.zone_views(), key as int, p as int),
    {
        let mut i: usize = 0;
        while i < self.zones.len() && self.zones[i].id.0 < key
            invariant
                self.wf(),
                i <= self.zones@.len(),
                forall|j: int| 0 <= j < i ==> (#[trigger] self.zone_views()[j]).key() < key as int,
            decreases self.zones@.len() - i,
        {
            i = i + 1;
        }
        proof {
            assert forall|j: int| i <= j < self.zone_views().len() implies (#[trigger] self.zone_views()[j]).key() > key as int by {
                if j > i {
                    assert(self.zone_views()[i as int].key() < self.zone_views()[j].key());
                }
                assert(self.zones@[j].id.0 != key);
            }
        }
        i
    }

    /// Inserts (or replaces) a zone.
    pub fn add_zone(&mut self, zone: Zone)
        requires
            old(self).wf(),
        ensures
            final(self).wf(),
            final(self)@ == (WorldView { zones: old(self)@.zones.insert(zone.id.0 as int, zone@), ..old(self)@ }),
            final(self).entities@ == old(self).entities@,
    {
        match self.find_zone(zone.id) {
            Some(i) => {
                self.put_zone_at(i, zone);
            },
            None => {
                let p = self.zone_insert_position(zone.id.0);
                let ghost zv = zone@;
                proof {
                    lemma_keyed_insert(self.zone_views(), p as int, zv);
                }
                self.zones.insert(p, zone);
                assert(self.zone_views() =~= old(self).zone_views().insert(p as int, zv));
            },
        }
    }

    /// Inserts (or replaces) an entity and indexes it in its zone, when that
    /// zone exists.
    pub fn add_entity(&mut self, entity: Entity)
        requires
            old(self).wf(),
        ensures
            final(self).wf(),
            final(self)@ == old(self)@.with_entity(entity),
    {
        let id = entity.id;
        let zone = entity.position.zone;
        let ghost e = entity;
        match self.find_entity(id) {
            Some(i) => {
                self.put_entity_at(i, entity);
            },
            None => {
                let p = self.entity_insert_position(id.0);
                proof {
                    lemma_keyed_insert(self.entities@, p as int, e);
                }
                self.entities.insert(p, entity);
            },
        }
        let ghost mid = self@;
        assert(mid.entities == old(self)@.entities.insert(id.0 as int, e));
        match self.find_zone(zone) {
            Some(zi) => {
                self.zone_add_entity_at(zi, id);
            },
            None => {},
        }
        assert(self@.zones =~= old(self)@.with_entity(e).zones);
        assert(self@.entities =~= old(self)@.with_entity(e).entities);
    }

    /// Removes an entity and drops it from its zone index.
    pub fn remove_entity(&mut self, id: EntityId) -> (r: Option<Entity>)
        requires
            old(self).wf(),
        ensures
            final(self).wf(),
            final(self)@ == old(self)@.without_entity(id),
            final(self).entities@.len() <= old(self).entities@.len(),
            match r {
                Some(e) => old(self)@.entities.contains_key(id.0 as int) && e == old(self)@.entities[id.0 as int],
                None => !old(self)@.entities.contains_key(id.0 as int),
            },
    {
        match self.find_entity(id) {
            None => None,
            Some(i) => {
                proof {
                    lemma_keyed_remove(self.entities@, i as int);
                }
                let e = self.entities.remove(i);
                match self.find_zone(e.position.zone) {
                    Some(zi) => {
                        self.zone_remove_entity_at(zi, id);
                    },
                    None => {},
                }
                assert(self@.zones =~= old(self)@.without_entity(id).zones);
                assert(self@.entities =~= old(self)@.without_entity(id).entities);
                Some(e)
            },
        }
    }

    /// Adds an entity to a zone's index, when the zone exists.
    pub fn zone_add_entity(&mut self, zone: ZoneId, id: EntityId)
        requires
            old(self).wf(),
        ensures
            final(self).wf(),
            final(self)@ == (WorldView {
                zones: if old(self)@.zones.contains_key(zone.0 as int) {
                    old(self)@.zones.insert(zone.0 as int, zone_with_entity(old(self)@.zones[zone.0 as int], id))
                } else {
                    old(self)@.zones
                },
                ..old(self)@
            }),
    {
        match self.find_zone(zone) {
            Some(zi) => {
                self.zone_add_entity_at(zi, id);
            },
            None => {},
        }
        assert(self@.zones =~= (if old(self)@.zones.contains_key(zone.0 as int) {
            old(self)@.zones.insert(zone.0 as int, zone_with_entity(old(self)@.zones[zone.0 as int], id))
        } else {
            old(self)@.zones
        }));
    }

    /// Drops an entity from a zone's index, when the zone exists.
    pub fn zone_remove_entity(&mut self, zone: ZoneId, id: EntityId)
        requires
            old(self).wf(),
        ensures
            final(self).wf(),
            final(self)@ == (WorldView {
                zones: if old(self)@.zones.contains_key(zone.0 as int) {
                    old(self)@.zones.insert(zone.0 as int, zone_without_entity(old(self)@.zones[zone.0 as int], id))
                } else {
                    old(self)@.zones
                },
                ..old(self)@
            }),
    {
        match self.find_zone(zone) {
            Some(zi) => {
                self.zone_remove_entity_at(zi, id);
            },
            None => {},
        }
        assert(self@.zones =~= (if old(self)@.zones.contains_key(zone.0 as int) {
            old(self)@.zones.insert(zone.0 as int, zone_without_entity(old(self)@.zones[zone.0 as int], id))
        } else {
            old(self)@.zones
        }));
    }

    /// Sets whether a zone is loaded, when the zone exists; reports whether it exists.
    pub fn set_zone_loaded(&mut self, zone: ZoneId, loaded: bool) -> (found: bool)
        requires
            old(self).wf(),
        ensures
            final(self).wf(),
            found == old(self)@.zones.contains_key(zone.0 as int),
            final(self)@ == (WorldView {
                zones: if found {
                    old(self)@.zones.insert(zone.0 as int, ZoneView { loaded, ..old(self)@.zones[zone.0 as int] })
                } else {
                    old(self)@.zones
                },
                ..old(self)@
            }),
    {
        match self.find_zone(zone) {
            Some(zi) => {
                let mut z = self.zones[zi].clone();
                z.loaded = loaded;
                self.put_zone_at(zi, z);
                assert(self@.zones =~= old(self)@.zones.insert(zone.0 as int, ZoneView { loaded, ..old(self)@.zones[zone.0 as int] }));
                true
            },
            None => false,
        }
    }
}

} // verus!
