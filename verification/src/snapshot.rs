//! The persisted form of a world and its validation.
//!
//! A snapshot lists entities and zones as keyed tables in ascending key
//! order. Before a snapshot becomes a world it is checked, in this order:
//! the format version, the metadata mirror of tick and time, the simulated
//! time, the entity ids, the zone ids, and the zone entity index.
use vstd::prelude::*;

use crate::errors::{Corruption, SimError};
use crate::keyed::{keyed_map, keys_increasing, lemma_keyed_absent, lemma_keyed_index, Keyed};
use crate::types::{EntityId, SimTime, Tick, ZoneId};
use crate::world::{Entity, World, WorldMeta, WorldView, Zone, ZoneView, CURRENT_FORMAT_VERSION};

verus! {

/// An entity under its table key.
pub struct EntityEntry {
    pub key: EntityId,
    pub entity: Entity,
}

impl Clone for EntityEntry {
    fn clone(&self) -> (r: Self)
        ensures
            r == *self,
    {
        EntityEntry { key: self.key, entity: self.entity.clone() }
    }
}

impl Keyed for EntityEntry {
    open spec fn key(&self) -> int {
        self.key.0 as int
    }
}

/// A zone under its table key.
pub struct ZoneEntry {
    pub key: ZoneId,
    pub zone: Zone,
}

impl Clone for ZoneEntry {
    fn clone(&self) -> (r: Self)
        ensures
            r.key == self.key,
            r.zone@ == self.zone@,
    {
        ZoneEntry { key: self.key, zone: self.zone.clone() }
    }
}

impl Keyed for ZoneEntry {
    open spec fn key(&self) -> int {
        self.key.0 as int
    }
}

/// A world as persisted: metadata, clocks, counters and the keyed tables.
pub struct WorldSnapshot {
    pub meta: WorldMeta,
    pub current_tick: Tick,
    pub sim_time: SimTime,
    pub rng_state: u64,
    pub next_entity_id: u64,
    pub entities: Vec<EntityEntry>,
    pub zones: Vec<ZoneEntry>,
}

impl Clone for WorldSnapshot {
    fn clone(&self) -> (r: Self)
        ensures
            r.meta == self.meta,
            r.current_tick == self.current_tick,
            r.sim_time == self.sim_time,
            r.rng_state == self.rng_state,
            r.next_entity_id == self.next_entity_id,
            r.entities@ == self.entities@,
            r.zones@.len() == self.zones@.len(),
            forall|i: int| 0 <= i < r.zones@.len() ==> (#[trigger] r.zones@[i]).key == self.zones@[i].key
                && r.zones@[i].zone@ == self.zones@[i].zone@,
    {
        let mut entities: Vec<EntityEntry> = Vec::new();
        let mut i: usize = 0;
        while i < self.entities.len()
            invariant
                i <= self.entities@.len(),
                entities@ == self.entities@.take(i as int),
            decreases self.entities@.len() - i,
        {
            entities.push(self.entities[i].clone());
            i = i + 1;
            proof {
                assert(entities@ =~= self.entities@.take(i as int));
            }
        }
        proof {
            assert(self.entities@.take(self.entities@.len() as int) =~= self.entities@);
        }
        let mut zones: Vec<ZoneEntry> = Vec::new();
        let mut k: usize = 0;
        while k < self.zones.len()
            invariant
                k <= self.zones@.len(),
                zones@.len() == k,
                forall|j: int| 0 <= j < k ==> (#[trigger] zones@[j]).key == self.zones@[j].key
                    && zones@[j].zone@ == self.zones@[j].zone@,
            decreases self.zones@.len() - k,
        {
            zones.push(self.zones[k].clone());
            k = k + 1;
        }
        WorldSnapshot {
            meta: self.meta.clone(),
            current_tick: self.current_tick,
            sim_time: self.sim_time,
            rng_state: self.rng_state,
            next_entity_id: self.next_entity_id,
            entities,
            zones,
        }
    }
}

impl WorldSnapshot {
    /// The tables are in strictly ascending key order, as a sorted map
    /// yields them.
    pub open spec fn wf(&self) -> bool {
        &&& keys_increasing(self.entities@)
        &&& keys_increasing(self.zones@)
    }
}

/// The largest entity key, or 0 for an empty table.
pub open spec fn max_key(es: Seq<EntityEntry>) -> u64
    decreases es.len(),
{
    if es.len() == 0 {
        0
    } else {
        let m = max_key(es.drop_last());
        if es.last().key.0 > m {
            es.last().key.0
        } else {
            m
        }
    }
}

/// The first entity entry, from position `i` on, whose key is not its
/// entity's id or is the invalid id 0.
pub open spec fn entity_ids_error(es: Seq<EntityEntry>, i: int) -> Option<Corruption>
    decreases es.len() - i,
{
    if i < 0 || i >= es.len() {
        None
    } else if es[i].key != es[i].entity.id {
        Some(Corruption::EntityKeyMismatch { key: es[i].key, id: es[i].entity.id })
    } else if es[i].key.0 == 0 {
        Some(Corruption::InvalidEntityId)
    } else {
        entity_ids_error(es, i + 1)
    }
}

/// The first zone entry, from position `i` on, whose key is not its zone's
/// id.
pub open spec fn zone_ids_error(zs: Seq<ZoneEntry>, i: int) -> Option<Corruption>
    decreases zs.len() - i,
{
    if i < 0 || i >= zs.len() {
        None
    } else if zs[i].key != zs[i].zone.id {
        Some(Corruption::ZoneKeyMismatch { key: zs[i].key, id: zs[i].zone.id })
    } else {
        zone_ids_error(zs, i + 1)
    }
}

/// The checks of the entity counter and entity ids.
pub open spec fn spec_entity_ids_check(s: WorldSnapshot) -> Option<Corruption> {
    if s.next_entity_id == 0 {
        Some(Corruption::NextEntityIdZero)
    } else if s.next_entity_id <= max_key(s.entities@) {
        Some(Corruption::NextEntityIdNotAbove { next_entity_id: s.next_entity_id, max_entity_id: max_key(s.entities@) })
    } else {
        entity_ids_error(s.entities@, 0)
    }
}

fn max_entity_key(es: &Vec<EntityEntry>) -> (r: u64)
    ensures
        r == max_key(es@),
{
    let mut m: u64 = 0;
    let mut i: usize = 0;
    while i < es.len()
        invariant
            i <= es@.len(),
            m == max_key(es@.take(i as int)),
        decreases es@.len() - i,
    {
        proof {
            assert(es@.take(i as int + 1).drop_last() =~= es@.take(i as int));
        }
        if es[i].key.0 > m {
            m = es[i].key.0;
        }
        i = i + 1;
    }
    proof {
        assert(es@.take(es@.len() as int) =~= es@);
    }
    m
}

/// Checks the entity counter and the entity table's keys: the counter is
/// positive and above every key, and every key is its entity's valid id.
pub fn validate_entity_ids(snapshot: &WorldSnapshot) -> (r: Option<Corruption>)
    ensures
        r == spec_entity_ids_check(*snapshot),
{
    let max_entity_id = max_entity_key(&snapshot.entities);
    if snapshot.next_entity_id == 0 {
        return Some(Corruption::NextEntityIdZero);
    }
    if snapshot.next_entity_id <= max_entity_id {
        return Some(Corruption::NextEntityIdNotAbove { next_entity_id: snapshot.next_entity_id, max_entity_id });
    }
    let es = &snapshot.entities;
    let mut i: usize = 0;
    while i < es.len()
        invariant
            es@ == snapshot.entities@,
            snapshot.next_entity_id != 0,
            snapshot.next_entity_id > max_key(snapshot.entities@),
            i <= es@.len(),
            entity_ids_error(es@, 0) == entity_ids_error(es@, i as int),
        decreases es@.len() - i,
    {
        if es[i].key != es[i].entity.id {
            return Some(Corruption::EntityKeyMismatch { key: es[i].key, id: es[i].entity.id });
        }
        if es[i].key.0 == 0 {
            return Some(Corruption::InvalidEntityId);
        }
        i = i + 1;
    }
    None
}

/// Checks that every zone entry's key is its zone's id.
pub fn validate_zone_ids(snapshot: &WorldSnapshot) -> (r: Option<Corruption>)
    ensures
        r == zone_ids_error(snapshot.zones@, 0),
{
    let zs = &snapshot.zones;
    let mut i: usize = 0;
    while i < zs.len()
        invariant
            zs@ == snapshot.zones@,
            i <= zs@.len(),
            zone_ids_error(zs@, 0) == zone_ids_error(zs@, i as int),
        decreases zs@.len() - i,
    {
        if zs[i].key != zs[i].zone.id {
            return Some(Corruption::ZoneKeyMismatch { key: zs[i].key, id: zs[i].zone.id });
        }
        i = i + 1;
    }
    None
}

/// The first entity entry, from position `i` on, placed in a zone the
/// snapshot does not have.
pub open spec fn missing_zone_error(es: Seq<EntityEntry>, zs: Seq<ZoneEntry>, i: int) -> Option<Corruption>
    decreases es.len() - i,
{
    if i < 0 || i >= es.len() {
        None
    } else if !keyed_map(zs).contains_key(es[i].entity.position.zone.0 as int) {
        Some(Corruption::EntityInMissingZone { entity: es[i].key, zone: es[i].entity.position.zone })
    } else {
        missing_zone_error(es, zs, i + 1)
    }
}

/// The first problem, from position `i` on, of a zone's entity list: an id
/// listed twice, an id with no entity, or an entity placed in another zone.
pub open spec fn zone_list_error(zid: ZoneId, list: Seq<EntityId>, es: Seq<EntityEntry>, i: int) -> Option<Corruption>
    decreases list.len() - i,
{
    if i < 0 || i >= list.len() {
        None
    } else if list.take(i).contains(list[i]) {
        Some(Corruption::DuplicateZoneEntity { zone: zid, entity: list[i] })
    } else if !keyed_map(es).contains_key(list[i].0 as int) {
        Some(Corruption::ZoneReferencesMissingEntity { zone: zid, entity: list[i] })
    } else if keyed_map(es)[list[i].0 as int].entity.position.zone != zid {
        Some(
            Corruption::ZoneEntityElsewhere {
                zone: zid,
                entity: list[i],
                position_zone: keyed_map(es)[list[i].0 as int].entity.position.zone,
            },
        )
    } else {
        zone_list_error(zid, list, es, i + 1)
    }
}

/// The keys of the entities placed in a zone.
pub open spec fn positioned_in(es: Seq<EntityEntry>, zid: ZoneId) -> Set<int> {
    Set::new(|k: int| keyed_map(es).contains_key(k) && keyed_map(es)[k].entity.position.zone == zid)
}

pub open spec fn id_set(list: Seq<EntityId>) -> Set<int> {
    list.map_values(|id: EntityId| id.0 as int).to_set()
}

/// The problem with one zone's entity list, if any: a bad entry, or a list
/// that is not exactly the set of entities placed in the zone.
pub open spec fn zone_index_error(zid: ZoneId, list: Seq<EntityId>, es: Seq<EntityEntry>) -> Option<Corruption> {
    match zone_list_error(zid, list, es, 0) {
        Some(c) => Some(c),
        None => if id_set(list) != positioned_in(es, zid) {
            Some(Corruption::ZoneIndexMismatch { zone: zid })
        } else {
            None
        },
    }
}

/// The first zone, from position `i` on, whose entity list is wrong.
pub open spec fn zones_index_error(zs: Seq<ZoneEntry>, es: Seq<EntityEntry>, i: int) -> Option<Corruption>
    decreases zs.len() - i,
{
    if i < 0 || i >= zs.len() {
        None
    } else {
        match zone_index_error(zs[i].key, zs[i].zone.entities@, es) {
            Some(c) => Some(c),
            None => zones_index_error(zs, es, i + 1),
        }
    }
}

/// The check of the zone entity index: every entity is in an existing zone,
/// and every zone lists exactly its entities, each once.
pub open spec fn spec_index_check(s: WorldSnapshot) -> Option<Corruption> {
    match missing_zone_error(s.entities@, s.zones@, 0) {
        Some(c) => Some(c),
        None => zones_index_error(s.zones@, s.entities@, 0),
    }
}

fn find_entity_entry(es: &Vec<EntityEntry>, id: EntityId) -> (r: Option<usize>)
    requires
        keys_increasing(es@),
    ensures
        match r {
            Some(i) => i < es@.len() && es@[i as int].key == id && keyed_map(es@).contains_key(id.0 as int)
                && keyed_map(es@)[id.0 as int] == es@[i as int],
            None => !keyed_map(es@).contains_key(id.0 as int),
        },
{
    let mut i: usize = 0;
    while i < es.len()
        invariant
            keys_increasing(es@),
            i <= es@.len(),
            forall|j: int| 0 <= j < i ==> (#[trigger] es@[j]).key != id,
        decreases es@.len() - i,
    {
        if es[i].key == id {
            proof {
                lemma_keyed_index(es@, i as int);
            }
            return Some(i);
        }
        i = i + 1;
    }
    proof {
        lemma_keyed_absent(es@, id.0 as int);
    }
    None
}

fn has_zone_entry(zs: &Vec<ZoneEntry>, id: ZoneId) -> (r: bool)
    requires
        keys_increasing(zs@),
    ensures
        r == keyed_map(zs@).contains_key(id.0 as int),
{
    let mut i: usize = 0;
    while i < zs.len()
        invariant
            keys_increasing(zs@),
            i <= zs@.len(),
            forall|j: int| 0 <= j < i ==> (#[trigger] zs@[j]).key != id,
        decreases zs@.len() - i,
    {
        if zs[i].key == id {
            proof {
                lemma_keyed_index(zs@, i as int);
            }
            return true;
        }
        i = i + 1;
    }
    proof {
        lemma_keyed_absent(zs@, id.0 as int);
    }
    false
}

fn list_contains(list: &Vec<EntityId>, upto: usize, id: EntityId) -> (r: bool)
    requires
        upto <= list@.len(),
    ensures
        r == list@.take(upto as int).contains(id),
{
    let mut j: usize = 0;
    while j < upto
        invariant
            upto <= list@.len(),
            j <= upto,
            forall|k: int| 0 <= k < j ==> list@[k] != id,
        decreases upto - j,
    {
        if list[j] == id {
            proof {
                assert(list@.take(upto as int)[j as int] == id);
            }
            return true;
        }
        j = j + 1;
    }
    proof {
        assert forall|k: int| 0 <= k < list@.take(upto as int).len() implies list@.take(upto as int)[k] != id by {
            assert(list@.take(upto as int)[k] == list@[k]);
        }
    }
    false
}

/// Checks one zone's entity list against the entity table.
fn check_zone_index(zid: ZoneId, list: &Vec<EntityId>, es: &Vec<EntityEntry>) -> (r: Option<Corruption>)
    requires
        keys_increasing(es@),
    ensures
        r == zone_index_error(zid, list@, es@),
{
    let mut i: usize = 0;
    while i < list.len()
        invariant
            keys_increasing(es@),
            i <= list@.len(),
            zone_list_error(zid, list@, es@, 0) == zone_list_error(zid, list@, es@, i as int),
            forall|j: int| 0 <= j < i ==> #[trigger] positioned_in(es@, zid).contains(list@[j].0 as int),
        decreases list@.len() - i,
    {
        let id = list[i];
        if list_contains(list, i, id) {
            return Some(Corruption::DuplicateZoneEntity { zone: zid, entity: id });
        }
        match find_entity_entry(es, id) {
            None => {
                return Some(Corruption::ZoneReferencesMissingEntity { zone: zid, entity: id });
            },
            Some(k) => {
                let position_zone = es[k].entity.position.zone;
                if position_zone != zid {
                    return Some(Corruption::ZoneEntityElsewhere { zone: zid, entity: id, position_zone });
                }
            },
        }
        i = i + 1;
    }
    let ghost ids = list@.map_values(|id: EntityId| id.0 as int);
    proof {
        assert(zone_list_error(zid, list@, es@, 0) is None);
        assert forall|k: int| id_set(list@).contains(k) implies positioned_in(es@, zid).contains(k) by {
            assert(ids.contains(k));
            let j = choose|j: int| 0 <= j < ids.len() && ids[j] == k;
            assert(ids[j] == list@[j].0 as int);
        }
    }
    let mut e: usize = 0;
    while e < es.len()
        invariant
            keys_increasing(es@),
            ids == list@.map_values(|id: EntityId| id.0 as int),
            e <= es@.len(),
            zone_list_error(zid, list@, es@, 0) is None,
            forall|k: int| id_set(list@).contains(k) ==> positioned_in(es@, zid).contains(k),
            forall|j: int| 0 <= j < e && (#[trigger] es@[j]).entity.position.zone == zid ==> id_set(list@).contains(es@[j].key.0 as int),
        decreases es@.len() - e,
    {
        if es[e].entity.position.zone == zid {
            let key = es[e].key;
            if !list_contains(list, list.len(), key) {
                proof {
                    lemma_keyed_index(es@, e as int);
                    assert(list@.take(list@.len() as int) =~= list@);
                    assert(positioned_in(es@, zid).contains(key.0 as int));
                    if id_set(list@).contains(key.0 as int) {
                        assert(ids.contains(key.0 as int));
                        let j = choose|j: int| 0 <= j < ids.len() && ids[j] == key.0 as int;
                        assert(list@[j].0 == key.0);
                        assert(list@.contains(key));
                    }
                }
                return Some(Corruption::ZoneIndexMismatch { zone: zid });
            }
            proof {
                assert(list@.take(list@.len() as int) =~= list@);
                let j = choose|j: int| 0 <= j < list@.len() && list@[j] == key;
                assert(ids[j] == key.0 as int);
                assert(ids.contains(key.0 as int));
            }
        }
        e = e + 1;
    }
    proof {
        assert forall|k: int| positioned_in(es@, zid).contains(k) implies id_set(list@).contains(k) by {
            crate::keyed::lemma_keyed_contains(es@, k);
            let j = crate::keyed::index_of_key(es@, k);
            assert(es@[j].entity.position.zone == zid);
        }
        assert(id_set(list@) =~= positioned_in(es@, zid));
    }
    None
}

/// Checks the zone entity index: every entity's zone exists, and every zone
/// lists exactly the entities placed in it, each once.
pub fn validate_zone_entity_index(snapshot: &WorldSnapshot) -> (r: Option<Corruption>)
    requires
        snapshot.wf(),
    ensures
        r == spec_index_check(*snapshot),
{
    let es = &snapshot.entities;
    let zs = &snapshot.zones;
    let mut i: usize = 0;
    while i < es.len()
        invariant
            es@ == snapshot.entities@,
            zs@ == snapshot.zones@,
            snapshot.wf(),
            i <= es@.len(),
            missing_zone_error(es@, zs@, 0) == missing_zone_error(es@, zs@, i as int),
        decreases es@.len() - i,
    {
        let zone = es[i].entity.position.zone;
        if !has_zone_entry(zs, zone) {
            return Some(Corruption::EntityInMissingZone { entity: es[i].key, zone });
        }
        i = i + 1;
    }
    let mut z: usize = 0;
    while z < zs.len()
        invariant
            es@ == snapshot.entities@,
            zs@ == snapshot.zones@,
            snapshot.wf(),
            z <= zs@.len(),
            missing_zone_error(es@, zs@, 0) is None,
            zones_index_error(zs@, es@, 0) == zones_index_error(zs@, es@, z as int),
        decreases zs@.len() - z,
    {
        match check_zone_index(zs[z].key, &zs[z].zone.entities, es) {
            Some(c) => {
                return Some(c);
            },
            None => {},
        }
        z = z + 1;
    }
    None
}

/// The outcome of validating a snapshot: the first failed check, in order.
pub open spec fn spec_validate_snapshot(s: WorldSnapshot) -> Result<(), SimError> {
    if s.meta.format_version != CURRENT_FORMAT_VERSION {
        Err(SimError::UnsupportedFormat { found: s.meta.format_version, current: CURRENT_FORMAT_VERSION })
    } else if s.meta.current_tick != s.current_tick {
        Err(SimError::CorruptedState(Corruption::MetaTickMismatch { meta_tick: s.meta.current_tick, tick: s.current_tick }))
    } else if s.meta.snapshot_tick != s.current_tick {
        Err(SimError::CorruptedState(Corruption::SnapshotTickMismatch { snapshot_tick: s.meta.snapshot_tick, tick: s.current_tick }))
    } else if s.meta.sim_time != s.sim_time {
        Err(SimError::CorruptedState(Corruption::MetaSimTimeMismatch { meta_sim_time: s.meta.sim_time, sim_time: s.sim_time }))
    } else if s.sim_time != SimTime::spec_from_ticks(s.current_tick) {
        Err(
            SimError::CorruptedState(
                Corruption::SimTimeMismatch {
                    sim_time: s.sim_time,
                    expected: SimTime::spec_from_ticks(s.current_tick),
                    tick: s.current_tick,
                },
            ),
        )
    } else {
        match spec_entity_ids_check(s) {
            Some(c) => Err(SimError::CorruptedState(c)),
            None => match zone_ids_error(s.zones@, 0) {
                Some(c) => Err(SimError::CorruptedState(c)),
                None => match spec_index_check(s) {
                    Some(c) => Err(SimError::CorruptedState(c)),
                    None => Ok(()),
                },
            },
        }
    }
}

/// Validates a snapshot before it becomes a world: the format version must be
/// the current one, the metadata must mirror the snapshot's tick and time,
/// the time must be the tick's, and the entity ids, zone ids and zone entity
/// index must be consistent.
pub fn validate_snapshot(snapshot: &WorldSnapshot) -> (r: Result<(), SimError>)
    requires
        snapshot.wf(),
    ensures
        r == spec_validate_snapshot(*snapshot),
{
    if snapshot.meta.format_version != CURRENT_FORMAT_VERSION {
        return Err(SimError::UnsupportedFormat { found: snapshot.meta.format_version, current: CURRENT_FORMAT_VERSION });
    }
    if snapshot.meta.current_tick != snapshot.current_tick {
        return Err(
            SimError::CorruptedState(
                Corruption::MetaTickMismatch { meta_tick: snapshot.meta.current_tick, tick: snapshot.current_tick },
            ),
        );
    }
    if snapshot.meta.snapshot_tick != snapshot.current_tick {
        return Err(
            SimError::CorruptedState(
                Corruption::SnapshotTickMismatch { snapshot_tick: snapshot.meta.snapshot_tick, tick: snapshot.current_tick },
            ),
        );
    }
    if snapshot.meta.sim_time != snapshot.sim_time {
        return Err(
            SimError::CorruptedState(
                Corruption::MetaSimTimeMismatch { meta_sim_time: snapshot.meta.sim_time, sim_time: snapshot.sim_time },
            ),
        );
    }
    let expected = SimTime::from_ticks(snapshot.current_tick);
    if snapshot.sim_time != expected {
        return Err(
            SimError::CorruptedState(
                Corruption::SimTimeMismatch { sim_time: snapshot.sim_time, expected, tick: snapshot.current_tick },
            ),
        );
    }
    if let Some(c) = validate_entity_ids(snapshot) {
        return Err(SimError::CorruptedState(c));
    }
    if let Some(c) = validate_zone_ids(snapshot) {
        return Err(SimError::CorruptedState(c));
    }
    if let Some(c) = validate_zone_entity_index(snapshot) {
        return Err(SimError::CorruptedState(c));
    }
    Ok(())
}

impl WorldSnapshot {
    /// The snapshot of a world: its tables keyed by id.
    pub fn of(world: &World) -> (s: WorldSnapshot)
        ensures
            s.meta == world.meta,
            s.current_tick == world.current_tick,
            s.sim_time == world.sim_time,
            s.rng_state == world.rng_state,
            s.next_entity_id == world.next_entity_id,
            s.entities@.len() == world.entities@.len(),
            forall|i: int| 0 <= i < s.entities@.len() ==> (#[trigger] s.entities@[i]).key == world.entities@[i].id
                && s.entities@[i].entity == world.entities@[i],
            s.zones@.len() == world.zones@.len(),
            forall|i: int| 0 <= i < s.zones@.len() ==> (#[trigger] s.zones@[i]).key == world.zones@[i].id
                && s.zones@[i].zone@ == world.zones@[i]@,
            world.wf() ==> s.wf(),
    {
        let mut entities: Vec<EntityEntry> = Vec::new();
        let mut i: usize = 0;
        while i < world.entities.len()
            invariant
                i <= world.entities@.len(),
                entities@.len() == i,
                forall|j: int| 0 <= j < i ==> (#[trigger] entities@[j]).key == world.entities@[j].id
                    && entities@[j].entity == world.entities@[j],
            decreases world.entities@.len() - i,
        {
            let e = world.entities[i].clone();
            entities.push(EntityEntry { key: e.id, entity: e });
            i = i + 1;
        }
        let mut zones: Vec<ZoneEntry> = Vec::new();
        let mut k: usize = 0;
        while k < world.zones.len()
            invariant
                k <= world.zones@.len(),
                zones@.len() == k,
                forall|j: int| 0 <= j < k ==> (#[trigger] zones@[j]).key == world.zones@[j].id
                    && zones@[j].zone@ == world.zones@[j]@,
            decreases world.zones@.len() - k,
        {
            let z = world.zones[k].clone();
            zones.push(ZoneEntry { key: z.id, zone: z });
            k = k + 1;
        }
        let s = WorldSnapshot {
            meta: world.meta.clone(),
            current_tick: world.current_tick,
            sim_time: world.sim_time,
            rng_state: world.rng_state,
            next_entity_id: world.next_entity_id,
            entities,
            zones,
        };
        proof {
            if world.wf() {
                assert forall|a: int, b: int| 0 <= a < b < s.zones@.len() implies (#[trigger] s.zones@[a]).key() < (
                #[trigger] s.zones@[b]).key() by {
                    assert(world.zone_views()[a].key() < world.zone_views()[b].key());
                }
            }
        }
        s
    }

    /// The world a snapshot describes.
    pub fn into_world(self) -> (w: World)
        ensures
            w.meta == self.meta,
            w.current_tick == self.current_tick,
            w.sim_time == self.sim_time,
            w.rng_state == self.rng_state,
            w.next_entity_id == self.next_entity_id,
            w.entities@ == self.entities@.map_values(|e: EntityEntry| e.entity),
            w.zone_views() == self.zones@.map_values(|z: ZoneEntry| z.zone@),
            w@ == snapshot_view(self),
            self.wf() && spec_validate_snapshot(self) is Ok ==> w.wf(),
    {
        let mut ents: Vec<Entity> = Vec::new();
        let mut i: usize = 0;
        while i < self.entities.len()
            invariant
                i <= self.entities@.len(),
                ents@ == self.entities@.take(i as int).map_values(|e: EntityEntry| e.entity),
            decreases self.entities@.len() - i,
        {
            ents.push(self.entities[i].entity.clone());
            i = i + 1;
            proof {
                assert(ents@ =~= self.entities@.take(i as int).map_values(|e: EntityEntry| e.entity));
            }
        }
        let mut zs_out: Vec<Zone> = Vec::new();
        let mut k: usize = 0;
        while k < self.zones.len()
            invariant
                k <= self.zones@.len(),
                zs_out@.len() == k,
                forall|j: int| 0 <= j < k ==> (#[trigger] zs_out@[j])@ == self.zones@[j].zone@,
            decreases self.zones@.len() - k,
        {
            zs_out.push(self.zones[k].zone.clone());
            k = k + 1;
        }
        proof {
            assert(self.entities@.take(self.entities@.len() as int) =~= self.entities@);
        }
        let w = World {
            meta: self.meta.clone(),
            current_tick: self.current_tick,
            sim_time: self.sim_time,
            rng_state: self.rng_state,
            next_entity_id: self.next_entity_id,
            entities: ents,
            zones: zs_out,
        };
        proof {
            assert(w.zone_views() =~= self.zones@.map_values(|z: ZoneEntry| z.zone@));
            if self.wf() && spec_validate_snapshot(self) is Ok {
                lemma_entity_keys_are_ids(self.entities@, 0);
                lemma_zone_keys_are_ids(self.zones@, 0);
                assert forall|a: int, b: int| 0 <= a < b < w.entities@.len() implies (#[trigger] w.entities@[a]).key() < (
                #[trigger] w.entities@[b]).key() by {
                    assert(self.entities@[a].key() < self.entities@[b].key());
                }
                assert forall|a: int, b: int| 0 <= a < b < w.zone_views().len() implies (#[trigger] w.zone_views()[a]).key() < (
                #[trigger] w.zone_views()[b]).key() by {
                    assert(self.zones@[a].key() < self.zones@[b].key());
                }
            }
        }
        w
    }
}

proof fn lemma_entity_keys_are_ids(es: Seq<EntityEntry>, i: int)
    requires
        0 <= i,
        entity_ids_error(es, i) is None,
    ensures
        forall|j: int| i <= j < es.len() ==> (#[trigger] es[j]).key == es[j].entity.id && es[j].key.0 != 0,
    decreases es.len() - i,
{
    if i < es.len() {
        lemma_entity_keys_are_ids(es, i + 1);
    }
}

proof fn lemma_zone_keys_are_ids(zs: Seq<ZoneEntry>, i: int)
    requires
        0 <= i,
        zone_ids_error(zs, i) is None,
    ensures
        forall|j: int| i <= j < zs.len() ==> (#[trigger] zs[j]).key == zs[j].zone.id,
    decreases zs.len() - i,
{
    if i < zs.len() {
        lemma_zone_keys_are_ids(zs, i + 1);
    }
}

/// The world a snapshot describes, as a view.
pub open spec fn snapshot_view(s: WorldSnapshot) -> WorldView {
    WorldView {
        meta: s.meta,
        current_tick: s.current_tick,
        sim_time: s.sim_time,
        rng_state: s.rng_state,
        next_entity_id: s.next_entity_id,
        entities: keyed_map(s.entities@.map_values(|e: EntityEntry| e.entity)),
        zones: keyed_map(s.zones@.map_values(|z: ZoneEntry| z.zone@)),
    }
}

/// The first entity entry, from position `i` on, whose key is not above the
/// previous one.
pub open spec fn entity_order_error(es: Seq<EntityEntry>, i: int) -> Option<Corruption>
    decreases es.len() - i,
{
    if i < 1 || i >= es.len() {
        None
    } else if es[i].key.0 <= es[i - 1].key.0 {
        Some(Corruption::EntitiesOutOfOrder { key: es[i].key })
    } else {
        entity_order_error(es, i + 1)
    }
}

/// The first zone entry, from position `i` on, whose key is not above the
/// previous one.
pub open spec fn zone_order_error(zs: Seq<ZoneEntry>, i: int) -> Option<Corruption>
    decreases zs.len() - i,
{
    if i < 1 || i >= zs.len() {
        None
    } else if zs[i].key.0 <= zs[i - 1].key.0 {
        Some(Corruption::ZonesOutOfOrder { key: zs[i].key })
    } else {
        zone_order_error(zs, i + 1)
    }
}

/// The first table entry out of ascending key order, if any.
pub open spec fn spec_order_check(s: WorldSnapshot) -> Option<Corruption> {
    match entity_order_error(s.entities@, 1) {
        Some(c) => Some(c),
        None => zone_order_error(s.zones@, 1),
    }
}

/// Checks that both tables are in strictly ascending key order, as a sorted
/// map yields them; reports the first entry out of order.
pub fn check_snapshot_order(snapshot: &WorldSnapshot) -> (r: Option<Corruption>)
    ensures
        r is None <==> snapshot.wf(),
        r == spec_order_check(*snapshot),
{
    let es = &snapshot.entities;
    let mut i: usize = 1;
    while i < es.len()
        invariant
            es@ == snapshot.entities@,
            1 <= i,
            es@.len() > 0 ==> i <= es@.len(),
            entity_order_error(es@, 1) == entity_order_error(es@, i as int),
            forall|a: int, b: int| 0 <= a < b < i && b < es@.len() ==> (#[trigger] es@[a]).key() < (#[trigger] es@[b]).key(),
        decreases es@.len() - i,
    {
        if es[i].key.0 <= es[i - 1].key.0 {
            proof {
                assert(!(es@[i as int - 1].key() < es@[i as int].key()));
            }
            return Some(Corruption::EntitiesOutOfOrder { key: es[i].key });
        }
        proof {
            assert forall|a: int, b: int| 0 <= a < b < i + 1 && b < es@.len() implies (#[trigger] es@[a]).key() < (
            #[trigger] es@[b]).key() by {
                if b == i && a < i - 1 {
                    assert(es@[a].key() < es@[i - 1].key());
                }
            }
        }
        i = i + 1;
    }
    assert(keys_increasing(es@));
    let zs = &snapshot.zones;
    let mut k: usize = 1;
    while k < zs.len()
        invariant
            zs@ == snapshot.zones@,
            keys_increasing(snapshot.entities@),
            entity_order_error(snapshot.entities@, 1) is None,
            1 <= k,
            zs@.len() > 0 ==> k <= zs@.len(),
            zone_order_error(zs@, 1) == zone_order_error(zs@, k as int),
            forall|a: int, b: int| 0 <= a < b < k && b < zs@.len() ==> (#[trigger] zs@[a]).key() < (#[trigger] zs@[b]).key(),
        decreases zs@.len() - k,
    {
        if zs[k].key.0 <= zs[k - 1].key.0 {
            proof {
                assert(!(zs@[k as int - 1].key() < zs@[k as int].key()));
            }
            return Some(Corruption::ZonesOutOfOrder { key: zs[k].key });
        }
        proof {
            assert forall|a: int, b: int| 0 <= a < b < k + 1 && b < zs@.len() implies (#[trigger] zs@[a]).key() < (
            #[trigger] zs@[b]).key() by {
                if b == k && a < k - 1 {
                    assert(zs@[a].key() < zs@[k - 1].key());
                }
            }
        }
        k = k + 1;
    }
    assert(keys_increasing(zs@));
    None
}

/// A world's snapshot describes that very world: the tables of
/// `WorldSnapshot::of(w)` rebuild the state `w@`.
pub proof fn law_snapshot_describes_world(w: World, s: WorldSnapshot)
    requires
        s.meta == w.meta,
        s.current_tick == w.current_tick,
        s.sim_time == w.sim_time,
        s.rng_state == w.rng_state,
        s.next_entity_id == w.next_entity_id,
        s.entities@.len() == w.entities@.len(),
        forall|i: int| 0 <= i < s.entities@.len() ==> (#[trigger] s.entities@[i]).key == w.entities@[i].id
            && s.entities@[i].entity == w.entities@[i],
        s.zones@.len() == w.zones@.len(),
        forall|i: int| 0 <= i < s.zones@.len() ==> (#[trigger] s.zones@[i]).key == w.zones@[i].id
            && s.zones@[i].zone@ == w.zones@[i]@,
    ensures
        snapshot_view(s) == w@,
{
    assert(s.entities@.map_values(|e: EntityEntry| e.entity) =~= w.entities@);
    assert(s.zones@.map_values(|z: ZoneEntry| z.zone@) =~= w.zone_views());
}

/// Entries keyed by their entity ids describe the same table as the
/// entities themselves.
proof fn lemma_entity_entries_bridge(es: Seq<EntityEntry>, ents: Seq<Entity>)
    requires
        es.len() == ents.len(),
        forall|i: int| 0 <= i < es.len() ==> (#[trigger] es[i]).key == ents[i].id && es[i].entity == ents[i],
        keys_increasing(ents),
    ensures
        keys_increasing(es),
        forall|k: int| #[trigger] keyed_map(es).contains_key(k) <==> keyed_map(ents).contains_key(k),
        forall|k: int| #[trigger] keyed_map(es).contains_key(k) ==> keyed_map(es)[k].entity == keyed_map(ents)[k],
{
    assert forall|a: int, b: int| 0 <= a < b < es.len() implies (#[trigger] es[a]).key() < (#[trigger] es[b]).key() by {
        assert(ents[a].key() < ents[b].key());
    }
    assert forall|k: int| #[trigger] keyed_map(es).contains_key(k) <==> keyed_map(ents).contains_key(k) by {
        if keyed_map(ents).contains_key(k) {
            crate::keyed::lemma_keyed_contains(ents, k);
            let i = crate::keyed::index_of_key(ents, k);
            lemma_keyed_index(es, i);
        }
        if keyed_map(es).contains_key(k) {
            crate::keyed::lemma_keyed_contains(es, k);
            let i = crate::keyed::index_of_key(es, k);
            lemma_keyed_index(ents, i);
        }
    }
    assert forall|k: int| #[trigger] keyed_map(es).contains_key(k) implies keyed_map(es)[k].entity == keyed_map(ents)[k] by {
        crate::keyed::lemma_keyed_contains(es, k);
        let i = crate::keyed::index_of_key(es, k);
        lemma_keyed_index(ents, i);
    }
}

/// Entries keyed by their zone ids describe the same table as the zones.
proof fn lemma_zone_entries_bridge(zs: Seq<ZoneEntry>, views: Seq<ZoneView>)
    requires
        zs.len() == views.len(),
        forall|i: int| 0 <= i < zs.len() ==> (#[trigger] zs[i]).key == views[i].id && zs[i].zone@ == views[i],
        keys_increasing(views),
    ensures
        keys_increasing(zs),
        forall|k: int| #[trigger] keyed_map(zs).contains_key(k) <==> keyed_map(views).contains_key(k),
        forall|k: int| #[trigger] keyed_map(zs).contains_key(k) ==> keyed_map(zs)[k].zone@ == keyed_map(views)[k],
{
    assert forall|a: int, b: int| 0 <= a < b < zs.len() implies (#[trigger] zs[a]).key() < (#[trigger] zs[b]).key() by {
        assert(views[a].key() < views[b].key());
    }
    assert forall|k: int| #[trigger] keyed_map(zs).contains_key(k) <==> keyed_map(views).contains_key(k) by {
        if keyed_map(views).contains_key(k) {
            crate::keyed::lemma_keyed_contains(views, k);
            let i = crate::keyed::index_of_key(views, k);
            lemma_keyed_index(zs, i);
        }
        if keyed_map(zs).contains_key(k) {
            crate::keyed::lemma_keyed_contains(zs, k);
            let i = crate::keyed::index_of_key(zs, k);
            lemma_keyed_index(views, i);
        }
    }
    assert forall|k: int| #[trigger] keyed_map(zs).contains_key(k) implies keyed_map(zs)[k].zone@ == keyed_map(views)[k] by {
        crate::keyed::lemma_keyed_contains(zs, k);
        let i = crate::keyed::index_of_key(zs, k);
        lemma_keyed_index(views, i);
    }
}

proof fn lemma_max_key_below(es: Seq<EntityEntry>, bound: int)
    requires
        forall|i: int| 0 <= i < es.len() ==> (#[trigger] es[i]).key.0 < bound,
    ensures
        max_key(es) < bound || es.len() == 0,
        es.len() == 0 ==> max_key(es) == 0,
    decreases es.len(),
{
    if es.len() > 0 {
        lemma_max_key_below(es.drop_last(), bound);
        assert(es.last().key.0 < bound);
    }
}

proof fn lemma_no_entity_id_error(es: Seq<EntityEntry>, i: int)
    requires
        0 <= i,
        forall|j: int| 0 <= j < es.len() ==> (#[trigger] es[j]).key == es[j].entity.id && es[j].key.0 != 0,
    ensures
        entity_ids_error(es, i) is None,
    decreases es.len() - i,
{
    if i < es.len() {
        lemma_no_entity_id_error(es, i + 1);
    }
}

proof fn lemma_no_zone_id_error(zs: Seq<ZoneEntry>, i: int)
    requires
        0 <= i,
        forall|j: int| 0 <= j < zs.len() ==> (#[trigger] zs[j]).key == zs[j].zone.id,
    ensures
        zone_ids_error(zs, i) is None,
    decreases zs.len() - i,
{
    if i < zs.len() {
        lemma_no_zone_id_error(zs, i + 1);
    }
}

proof fn lemma_no_missing_zone(es: Seq<EntityEntry>, zs: Seq<ZoneEntry>, i: int)
    requires
        0 <= i,
        forall|j: int| 0 <= j < es.len() ==> keyed_map(zs).contains_key((#[trigger] es[j]).entity.position.zone.0 as int),
    ensures
        missing_zone_error(es, zs, i) is None,
    decreases es.len() - i,
{
    if i < es.len() {
        lemma_no_missing_zone(es, zs, i + 1);
    }
}

proof fn lemma_no_zone_list_error(zid: ZoneId, list: Seq<EntityId>, es: Seq<EntityEntry>, i: int)
    requires
        0 <= i,
        crate::indexing::no_dups(list),
        forall|j: int| 0 <= j < list.len() ==> keyed_map(es).contains_key((#[trigger] list[j]).0 as int)
            && keyed_map(es)[list[j].0 as int].entity.position.zone == zid,
    ensures
        zone_list_error(zid, list, es, i) is None,
    decreases list.len() - i,
{
    if i < list.len() {
        assert(!list.take(i).contains(list[i])) by {
            if list.take(i).contains(list[i]) {
                let j = choose|j: int| 0 <= j < list.take(i).len() && list.take(i)[j] == list[i];
                assert(list[j] == list[i]);
            }
        }
        lemma_no_zone_list_error(zid, list, es, i + 1);
    }
}

proof fn lemma_no_zones_index_error(zs: Seq<ZoneEntry>, es: Seq<EntityEntry>, i: int)
    requires
        0 <= i,
        forall|j: int| 0 <= j < zs.len() ==> zone_index_error((#[trigger] zs[j]).key, zs[j].zone.entities@, es) is None,
    ensures
        zones_index_error(zs, es, i) is None,
    decreases zs.len() - i,
{
    if i < zs.len() {
        assert(zone_index_error(zs[i].key, zs[i].zone.entities@, es) is None);
        lemma_no_zones_index_error(zs, es, i + 1);
    }
}

/// A saved world passes validation: the snapshot of a well-formed world in
/// the current format, whose counters agree, whose zone entity index is
/// exact, and whose metadata records its tick as the snapshot tick, is in key
/// order and is accepted.
pub proof fn law_saved_world_validates(w: World, s: WorldSnapshot)
    requires
        w.wf(),
        crate::laws::coherent(w@),
        crate::indexing::indexed(w@),
        w.meta.format_version == CURRENT_FORMAT_VERSION,
        w.meta.snapshot_tick == w.current_tick,
        s.meta == w.meta,
        s.current_tick == w.current_tick,
        s.sim_time == w.sim_time,
        s.rng_state == w.rng_state,
        s.next_entity_id == w.next_entity_id,
        s.entities@.len() == w.entities@.len(),
        forall|i: int| 0 <= i < s.entities@.len() ==> (#[trigger] s.entities@[i]).key == w.entities@[i].id
            && s.entities@[i].entity == w.entities@[i],
        s.zones@.len() == w.zones@.len(),
        forall|i: int| 0 <= i < s.zones@.len() ==> (#[trigger] s.zones@[i]).key == w.zones@[i].id
            && s.zones@[i].zone@ == w.zones@[i]@,
    ensures
        s.wf(),
        spec_validate_snapshot(s) == Ok::<(), SimError>(()),
{
    let es = s.entities@;
    let zs = s.zones@;
    let v = w@;
    lemma_entity_entries_bridge(es, w.entities@);
    assert forall|i: int| 0 <= i < zs.len() implies (#[trigger] zs[i]).key == w.zone_views()[i].id && zs[i].zone@
        == w.zone_views()[i] by {
        assert(w.zone_views()[i] == w.zones@[i]@);
    }
    lemma_zone_entries_bridge(zs, w.zone_views());
    // every entry is an entity of the world: positive id below the counter
    assert forall|i: int| 0 <= i < es.len() implies (#[trigger] es[i]).key.0 < w.next_entity_id && es[i].key.0 != 0
        && keyed_map(zs).contains_key(es[i].entity.position.zone.0 as int) by {
        lemma_keyed_index(w.entities@, i);
        let k = w.entities@[i].key();
        assert(v.entities.contains_key(k));
    }
    lemma_max_key_below(es, w.next_entity_id as int);
    lemma_no_entity_id_error(es, 0);
    assert forall|j: int| 0 <= j < zs.len() implies (#[trigger] zs[j]).key == zs[j].zone.id by {
        assert(zs[j].zone@ == w.zones@[j]@);
    }
    lemma_no_zone_id_error(zs, 0);
    lemma_no_missing_zone(es, zs, 0);
    assert forall|j: int| 0 <= j < zs.len() implies zone_index_error((#[trigger] zs[j]).key, zs[j].zone.entities@, es) is None by {
        let zid = zs[j].key;
        let z = zid.0 as int;
        lemma_keyed_index(zs, j);
        assert(keyed_map(zs).contains_key(z));
        assert(v.zones.contains_key(z));
        assert(keyed_map(zs)[z].zone@ == v.zones[z]);
        assert(keyed_map(zs)[z] == zs[j]);
        let list = zs[j].zone.entities@;
        assert(list == v.zones[z].entities);
        assert forall|i: int| 0 <= i < list.len() implies keyed_map(es).contains_key((#[trigger] list[i]).0 as int)
            && keyed_map(es)[list[i].0 as int].entity.position.zone == zid by {
            assert(crate::indexing::listed_ok(v, z, v.zones[z].entities[i]));
        }
        lemma_no_zone_list_error(zid, list, es, 0);
        assert forall|k: int| #[trigger] id_set(list).contains(k) <==> positioned_in(es, zid).contains(k) by {
            let ids = list.map_values(|id: EntityId| id.0 as int);
            if id_set(list).contains(k) {
                assert(ids.contains(k));
                let i = choose|i: int| 0 <= i < ids.len() && ids[i] == k;
                assert(ids[i] == list[i].0 as int);
                assert(crate::indexing::listed_ok(v, z, v.zones[z].entities[i]));
            }
            if positioned_in(es, zid).contains(k) {
                assert(v.entities.contains_key(k));
                assert(v.entities[k].position.zone.0 == z);
                assert(v.zones[z].entities.contains(EntityId(k as u64)));
                let i = choose|i: int| 0 <= i < list.len() && list[i] == EntityId(k as u64);
                assert(v.entities[k].id.0 == k);
                assert(ids[i] == k);
                assert(ids.contains(k));
            }
        }
        assert(id_set(list) =~= positioned_in(es, zid));
    }
    lemma_no_zones_index_error(zs, es, 0);
}

} // verus!
