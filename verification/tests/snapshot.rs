use seej::commands::EntityProperties;
use seej::errors::{Corruption, SimError};
use seej::migrations::{migrate_meta, needs_migration};
use seej::snapshot::{check_snapshot_order, validate_snapshot, EntityEntry, WorldSnapshot, ZoneEntry};
use seej::types::{EntityId, EntityKind, Position, RngSeed, SimTime, Tick, WorldPos, ZoneId};
use seej::world::{Entity, World, Zone, CURRENT_FORMAT_VERSION};

fn snapshot_value() -> WorldSnapshot {
    let mut world = World::new("Snapshot Test".to_string(), RngSeed::new(1));
    let entity = Entity::new(EntityId::new(1), EntityKind::Resource, WorldPos::origin(), Tick::zero(), EntityProperties::default());
    world.add_entity(entity);
    world.next_entity_id = 2;
    WorldSnapshot::of(&world)
}

fn decode_value(snapshot: WorldSnapshot) -> Result<World, SimError> {
    if let Some(c) = check_snapshot_order(&snapshot) {
        return Err(SimError::CorruptedState(c));
    }
    validate_snapshot(&snapshot)?;
    Ok(snapshot.into_world())
}

#[test]
fn decode_rejects_meta_current_tick_mismatch() {
    let mut value = snapshot_value();
    value.meta.current_tick = Tick(1);
    let err = decode_value(value).unwrap_err();
    assert_eq!(err, SimError::CorruptedState(Corruption::MetaTickMismatch { meta_tick: Tick(1), tick: Tick(0) }));
}

#[test]
fn decode_rejects_next_entity_id_behind_existing_entity() {
    let mut value = snapshot_value();
    value.next_entity_id = 1;
    let err = decode_value(value).unwrap_err();
    assert_eq!(err, SimError::CorruptedState(Corruption::NextEntityIdNotAbove { next_entity_id: 1, max_entity_id: 1 }));
}

#[test]
fn decode_rejects_entity_referencing_missing_zone() {
    let mut value = snapshot_value();
    value.entities[0].entity.position = WorldPos::new(ZoneId::new(99), Position::new(0, 0, 0));
    let err = decode_value(value).unwrap_err();
    assert_eq!(err, SimError::CorruptedState(Corruption::EntityInMissingZone { entity: EntityId::new(1), zone: ZoneId::new(99) }));
}

#[test]
fn decode_rejects_zone_entity_index_mismatch() {
    let mut value = snapshot_value();
    value.zones[0].zone.entities = vec![];
    let err = decode_value(value).unwrap_err();
    assert_eq!(err, SimError::CorruptedState(Corruption::ZoneIndexMismatch { zone: ZoneId::new(0) }));
}

#[test]
fn decode_accepts_valid_snapshot() {
    let value = snapshot_value();
    let world = decode_value(value).expect("valid snapshot must decode");
    assert_eq!(world.entity_count(), 1);
    assert_eq!(world.get_zone(ZoneId::origin()).expect("origin zone must exist").entities, vec![EntityId::new(1)]);
}

#[test]
fn decode_rejects_entity_in_wrong_zone_index() {
    let mut value = snapshot_value();
    value.entities[0].entity.position = WorldPos::new(ZoneId::new(0), Position::new(1, 0, 0));
    value.zones[0].zone.entities = vec![EntityId::new(1), EntityId::new(1)];
    let err = decode_value(value).unwrap_err();
    assert_eq!(err, SimError::CorruptedState(Corruption::DuplicateZoneEntity { zone: ZoneId::new(0), entity: EntityId::new(1) }));
}

#[test]
fn decode_rejects_entity_position_zone_not_in_index() {
    let mut value = snapshot_value();
    value.zones.push(ZoneEntry {
        key: ZoneId::new(1),
        zone: Zone { id: ZoneId::new(1), name: None, loaded: true, entities: vec![EntityId::new(1)] },
    });
    let err = decode_value(value).unwrap_err();
    assert_eq!(
        err,
        SimError::CorruptedState(Corruption::ZoneEntityElsewhere {
            zone: ZoneId::new(1),
            entity: EntityId::new(1),
            position_zone: ZoneId::new(0),
        })
    );
}

#[test]
fn decode_rejects_unsupported_format_first() {
    let mut value = snapshot_value();
    value.meta.format_version = CURRENT_FORMAT_VERSION - 1;
    value.meta.current_tick = Tick(5);
    let err = decode_value(value).unwrap_err();
    assert_eq!(err, SimError::UnsupportedFormat { found: 2, current: 3 });
}

#[test]
fn decode_rejects_clock_mirror_and_time_mismatches() {
    let mut a = snapshot_value();
    a.meta.snapshot_tick = Tick(4);
    assert_eq!(
        decode_value(a).unwrap_err(),
        SimError::CorruptedState(Corruption::SnapshotTickMismatch { snapshot_tick: Tick(4), tick: Tick(0) })
    );
    let mut b = snapshot_value();
    b.meta.sim_time = SimTime { units: 3 };
    assert_eq!(
        decode_value(b).unwrap_err(),
        SimError::CorruptedState(Corruption::MetaSimTimeMismatch { meta_sim_time: SimTime { units: 3 }, sim_time: SimTime { units: 0 } })
    );
    let mut c = snapshot_value();
    c.meta.sim_time = SimTime { units: 3 };
    c.sim_time = SimTime { units: 3 };
    assert_eq!(
        decode_value(c).unwrap_err(),
        SimError::CorruptedState(Corruption::SimTimeMismatch { sim_time: SimTime { units: 3 }, expected: SimTime { units: 0 }, tick: Tick(0) })
    );
}

#[test]
fn decode_rejects_bad_entity_and_zone_keys() {
    let mut a = snapshot_value();
    a.next_entity_id = 0;
    assert_eq!(decode_value(a).unwrap_err(), SimError::CorruptedState(Corruption::NextEntityIdZero));
    let mut b = snapshot_value();
    b.entities[0].key = EntityId::new(1);
    b.entities[0].entity.id = EntityId::new(7);
    assert_eq!(
        decode_value(b).unwrap_err(),
        SimError::CorruptedState(Corruption::EntityKeyMismatch { key: EntityId::new(1), id: EntityId::new(7) })
    );
    let mut c = snapshot_value();
    c.entities[0].key = EntityId::new(0);
    c.entities[0].entity.id = EntityId::new(0);
    assert_eq!(decode_value(c).unwrap_err(), SimError::CorruptedState(Corruption::InvalidEntityId));
    let mut d = snapshot_value();
    d.zones[0].zone.id = ZoneId::new(3);
    assert_eq!(
        decode_value(d).unwrap_err(),
        SimError::CorruptedState(Corruption::ZoneKeyMismatch { key: ZoneId::new(0), id: ZoneId::new(3) })
    );
}

#[test]
fn decode_rejects_missing_entity_and_unordered_tables() {
    let mut a = snapshot_value();
    a.zones[0].zone.entities.push(EntityId::new(9));
    assert_eq!(
        decode_value(a).unwrap_err(),
        SimError::CorruptedState(Corruption::ZoneReferencesMissingEntity { zone: ZoneId::new(0), entity: EntityId::new(9) })
    );
    let mut b = snapshot_value();
    let first = b.entities[0].clone();
    b.entities.push(first);
    assert_eq!(decode_value(b).unwrap_err(), SimError::CorruptedState(Corruption::EntitiesOutOfOrder { key: EntityId::new(1) }));
    let mut c = snapshot_value();
    let z = c.zones[0].clone();
    c.zones.push(z);
    assert_eq!(decode_value(c).unwrap_err(), SimError::CorruptedState(Corruption::ZonesOutOfOrder { key: ZoneId::new(0) }));
}

#[test]
fn snapshot_round_trip_rebuilds_the_world() {
    let mut world = World::new("Round Trip".to_string(), RngSeed::new(5));
    for i in 1..=3u64 {
        let e = Entity::new(EntityId::new(i), EntityKind::Creature, WorldPos::origin(), Tick::zero(), EntityProperties::default());
        world.add_entity(e);
    }
    world.next_entity_id = 4;
    let back = decode_value(WorldSnapshot::of(&world)).unwrap();
    assert_eq!(back, world);
    assert_eq!(WorldSnapshot::of(&world).entities.iter().map(|e: &EntityEntry| e.key).collect::<Vec<_>>(), vec![
        EntityId::new(1),
        EntityId::new(2),
        EntityId::new(3)
    ]);
}

#[test]
fn migration_is_an_exact_gate() {
    let world = World::new("M".to_string(), RngSeed::new(1));
    let mut meta = world.meta.clone();
    assert!(!needs_migration(&meta));
    meta.format_version = 2;
    assert!(needs_migration(&meta));
    assert!(migrate_meta(&mut meta));
    assert_eq!(meta.format_version, 2);
    let mut current = world.meta.clone();
    assert!(!migrate_meta(&mut current));
}
