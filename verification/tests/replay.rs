use seej::commands::EntityProperties;
use seej::events::{DespawnReason, EventData, PropertyValue, SimEvent};
use seej::replay::{apply_event, replay_events, ReplayError, ReplayEventKind};
use seej::types::{EntityId, EntityKind, EventId, Position, RngSeed, SimTime, Tick, WorldPos, ZoneId};
use seej::world::World;

#[test]
fn replay_entity_spawn() {
    let mut world = World::new("Test".to_string(), RngSeed::new(1));
    let event = SimEvent::with_id(
        EventId::new(1),
        Tick(1),
        EventData::EntitySpawned {
            entity_id: EntityId::new(1),
            kind: EntityKind::Resource,
            position: WorldPos::origin(),
            properties: EntityProperties::default(),
        },
    );
    apply_event(&mut world, &event).unwrap();
    assert_eq!(world.entity_count(), 1);
    assert!(world.get_entity(EntityId::new(1)).is_some());
}

#[test]
fn replay_is_idempotent() {
    let mut world = World::new("Test".to_string(), RngSeed::new(1));
    let event = SimEvent::with_id(
        EventId::new(1),
        Tick(1),
        EventData::EntitySpawned {
            entity_id: EntityId::new(1),
            kind: EntityKind::Resource,
            position: WorldPos::origin(),
            properties: EntityProperties::default(),
        },
    );
    apply_event(&mut world, &event).unwrap();
    apply_event(&mut world, &event).unwrap();
    assert_eq!(world.entity_count(), 1);
}

#[test]
fn replay_updates_tick() {
    let mut world = World::new("Test".to_string(), RngSeed::new(1));
    assert_eq!(world.current_tick, Tick::zero());
    let event = SimEvent::with_id(
        EventId::new(1),
        Tick(100),
        EventData::TickProcessed {
            tick: Tick(100),
            sim_time: SimTime { units: 100 },
            entities_processed: 0,
            rng_state_after: Some(999),
        },
    );
    apply_event(&mut world, &event).unwrap();
    assert_eq!(world.current_tick, Tick(100));
    assert_eq!(world.rng_state, 999);
}

#[test]
fn replay_errors_on_missing_entity_reference() {
    let mut world = World::new("Test".to_string(), RngSeed::new(1));
    let event = SimEvent::with_id(
        EventId::new(1),
        Tick(1),
        EventData::EntityDespawned { entity_id: EntityId::new(404), reason: DespawnReason::Command },
    );
    let err = apply_event(&mut world, &event).unwrap_err();
    assert!(matches!(err, ReplayError::MissingEntity { .. }));
    assert_eq!(world.current_tick, Tick::zero());
}

#[test]
fn replay_errors_on_missing_zone_reference_without_mutating_world() {
    let mut world = World::new("Test".to_string(), RngSeed::new(1));
    let event = SimEvent::with_id(EventId::new(1), Tick(5), EventData::ZoneLoaded { zone_id: ZoneId::new(404) });
    let err = apply_event(&mut world, &event).unwrap_err();
    assert_eq!(err, ReplayError::MissingZone { event: ReplayEventKind::ZoneLoaded, zone_id: ZoneId::new(404) });
    assert_eq!(world.current_tick, Tick::zero());
    assert_eq!(world.zone_count(), 1);
}

#[test]
fn replay_rejects_property_type_mismatch_without_mutating_entity() {
    let mut world = World::new("Test".to_string(), RngSeed::new(1));
    let spawn = SimEvent::with_id(
        EventId::new(1),
        Tick(1),
        EventData::EntitySpawned {
            entity_id: EntityId::new(1),
            kind: EntityKind::Resource,
            position: WorldPos::origin(),
            properties: EntityProperties { name: Some("ore".to_string()), amount: Some(10), health: None },
        },
    );
    apply_event(&mut world, &spawn).unwrap();
    let invalid = SimEvent::with_id(
        EventId::new(2),
        Tick(2),
        EventData::EntityPropertyChanged {
            entity_id: EntityId::new(1),
            property: "amount".to_string(),
            old_value: PropertyValue::UInt(10),
            new_value: PropertyValue::String("bad".to_string()),
        },
    );
    let err = apply_event(&mut world, &invalid).unwrap_err();
    assert_eq!(err, ReplayError::AmountRequiresUint);
    let entity = world.get_entity(EntityId::new(1)).unwrap();
    assert_eq!(entity.properties.amount, Some(10));
    assert_eq!(world.current_tick, Tick(1));
}

#[test]
fn replay_rejects_move_to_missing_destination_zone() {
    let mut world = World::new("Test".to_string(), RngSeed::new(1));
    let spawn = SimEvent::with_id(
        EventId::new(1),
        Tick(1),
        EventData::EntitySpawned {
            entity_id: EntityId::new(1),
            kind: EntityKind::Creature,
            position: WorldPos::origin(),
            properties: EntityProperties { name: None, amount: None, health: Some(5) },
        },
    );
    apply_event(&mut world, &spawn).unwrap();
    let invalid_move = SimEvent::with_id(
        EventId::new(2),
        Tick(2),
        EventData::EntityMoved {
            entity_id: EntityId::new(1),
            from: WorldPos::origin(),
            to: WorldPos::new(ZoneId::new(99), Position::new(1, 0, 0)),
        },
    );
    let err = apply_event(&mut world, &invalid_move).unwrap_err();
    assert_eq!(err, ReplayError::MissingDestinationZone { zone_id: ZoneId::new(99) });
    let entity = world.get_entity(EntityId::new(1)).unwrap();
    assert_eq!(entity.position, WorldPos::origin());
    assert_eq!(world.current_tick, Tick(1));
}

#[test]
fn replay_world_saved_is_strict_noop() {
    let mut world = World::new("Test".to_string(), RngSeed::new(1));
    let tick_event = SimEvent::with_id(
        EventId::new(1),
        Tick(7),
        EventData::TickProcessed {
            tick: Tick(7),
            sim_time: SimTime::from_ticks(Tick(7)),
            entities_processed: 0,
            rng_state_after: Some(123),
        },
    );
    apply_event(&mut world, &tick_event).unwrap();
    let before = world.clone();
    let saved = SimEvent::with_id(EventId::new(2), Tick(7), EventData::WorldSaved { tick: Tick(7) });
    apply_event(&mut world, &saved).unwrap();
    assert_eq!(world.current_tick, before.current_tick);
    assert_eq!(world.sim_time, before.sim_time);
    assert_eq!(world.meta.current_tick, before.meta.current_tick);
    assert_eq!(world.meta.sim_time, before.meta.sim_time);
    assert_eq!(world.rng_state, before.rng_state);
}

#[test]
fn replay_rejects_incoherent_world_saved_without_mutating_world() {
    let mut world = World::new("Test".to_string(), RngSeed::new(1));
    let before = world.clone();
    let saved = SimEvent::with_id(EventId::new(1), Tick(10), EventData::WorldSaved { tick: Tick(10) });
    let err = apply_event(&mut world, &saved).unwrap_err();
    assert!(matches!(err, ReplayError::WorldSavedTickMismatch { .. }));
    assert_eq!(world.current_tick, before.current_tick);
    assert_eq!(world.sim_time, before.sim_time);
    assert_eq!(world.meta.current_tick, before.meta.current_tick);
    assert_eq!(world.meta.sim_time, before.meta.sim_time);
}

#[test]
fn replay_events_stops_at_first_failure() {
    let mut world = World::new("Test".to_string(), RngSeed::new(1));
    let events = vec![
        SimEvent::with_id(
            EventId::new(1),
            Tick(3),
            EventData::TickProcessed { tick: Tick(3), sim_time: SimTime { units: 3 }, entities_processed: 0, rng_state_after: Some(5) },
        ),
        SimEvent::with_id(EventId::new(2), Tick(3), EventData::ZoneUnloaded { zone_id: ZoneId::new(7) }),
        SimEvent::with_id(
            EventId::new(3),
            Tick(9),
            EventData::TickProcessed { tick: Tick(9), sim_time: SimTime { units: 9 }, entities_processed: 0, rng_state_after: Some(5) },
        ),
    ];
    let err = replay_events(&mut world, &events).unwrap_err();
    assert_eq!(err, ReplayError::MissingZone { event: ReplayEventKind::ZoneUnloaded, zone_id: ZoneId::new(7) });
    assert_eq!(world.current_tick, Tick(3));
    let ok = replay_events(&mut world, &events[2..]).unwrap();
    assert_eq!(ok, 1);
    assert_eq!(world.current_tick, Tick(9));
}

#[test]
fn replay_zone_and_entity_lifecycle() {
    let mut world = World::new("Test".to_string(), RngSeed::new(1));
    let events = vec![
        SimEvent::with_id(EventId::new(1), Tick(1), EventData::ZoneCreated { zone_id: ZoneId::new(2), name: None }),
        SimEvent::with_id(
            EventId::new(2),
            Tick(1),
            EventData::EntitySpawned {
                entity_id: EntityId::new(5),
                kind: EntityKind::Creature,
                position: WorldPos::origin(),
                properties: EntityProperties { name: None, amount: None, health: Some(3) },
            },
        ),
        SimEvent::with_id(
            EventId::new(3),
            Tick(2),
            EventData::EntityMoved {
                entity_id: EntityId::new(5),
                from: WorldPos::origin(),
                to: WorldPos::new(ZoneId::new(2), Position::new(1, 2, 3)),
            },
        ),
        SimEvent::with_id(EventId::new(4), Tick(3), EventData::EntityDegraded { entity_id: EntityId::new(5), old_health: 3, new_health: 0 }),
    ];
    assert_eq!(replay_events(&mut world, &events), Ok(4));
    let e = world.get_entity(EntityId::new(5)).unwrap();
    assert_eq!(e.position, WorldPos::new(ZoneId::new(2), Position::new(1, 2, 3)));
    assert_eq!(e.properties.health, Some(0));
    assert!(e.is_dead());
    assert_eq!(world.get_zone(ZoneId::new(2)).unwrap().entities, vec![EntityId::new(5)]);
    assert!(world.get_zone(ZoneId::origin()).unwrap().entities.is_empty());
    assert_eq!(world.next_entity_id, 6);
    assert_eq!(world.current_tick, Tick(3));
}

#[test]
fn replay_refuses_incoherent_tick_processed_without_mutating_world() {
    let mut world = World::new("Test".to_string(), RngSeed::new(1));
    let before_tick = world.current_tick;
    let before_rng = world.rng_state;
    let tp = |outer: u64, tick: u64, units: u64, rng: Option<u64>| {
        SimEvent::with_id(
            EventId::new(1),
            Tick(outer),
            EventData::TickProcessed { tick: Tick(tick), sim_time: SimTime { units }, entities_processed: 0, rng_state_after: rng },
        )
    };
    assert_eq!(
        apply_event(&mut world, &tp(5, 4, 4, Some(1))),
        Err(ReplayError::TickProcessedTickMismatch { event_tick: Tick(5), payload_tick: Tick(4) })
    );
    assert_eq!(
        apply_event(&mut world, &tp(4, 4, 3, Some(1))),
        Err(ReplayError::TickProcessedSimTimeMismatch { tick: Tick(4), sim_time: SimTime { units: 3 } })
    );
    assert_eq!(apply_event(&mut world, &tp(4, 4, 4, None)), Err(ReplayError::TickProcessedWithoutRngState { tick: Tick(4) }));
    assert_eq!(world.current_tick, before_tick);
    assert_eq!(world.rng_state, before_rng);
    assert_eq!(apply_event(&mut world, &tp(4, 4, 4, Some(1))), Ok(()));
    assert_eq!(world.current_tick, Tick(4));
    assert_eq!(world.rng_state, 1);
}

#[test]
fn replaying_state_events_twice_is_replaying_them_once() {
    let mut world = World::new("Test".to_string(), RngSeed::new(1));
    let events = vec![
        SimEvent::with_id(
            EventId::new(1),
            Tick(0),
            EventData::WorldCreated { world_id: world.id().to_string(), name: "Test".to_string(), seed: RngSeed::new(1) },
        ),
        SimEvent::with_id(
            EventId::new(2),
            Tick(4),
            EventData::TickProcessed { tick: Tick(4), sim_time: SimTime { units: 4 }, entities_processed: 0, rng_state_after: Some(77) },
        ),
        SimEvent::with_id(EventId::new(3), Tick(4), EventData::ZoneCreated { zone_id: ZoneId::new(3), name: None }),
    ];
    for e in &events {
        apply_event(&mut world, e).unwrap();
        let once = world.clone();
        apply_event(&mut world, e).unwrap();
        assert_eq!(world, once);
    }
    assert_eq!(world.current_tick, Tick(4));
    assert_eq!(world.rng_state, 77);
}
