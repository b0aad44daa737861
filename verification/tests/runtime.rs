use std::collections::HashMap;

use seej::commands::{CreateWorldCmd, EntityProperties, SimCommand, SpawnEntityCmd};
use seej::determinism::compute_canonical_hash;
use seej::errors::{ApiError, Corruption, SimError};
use seej::events::{EventData, SimEvent};
use seej::hash::XxHasher;
use seej::persistence::{IEventLog, IWorldStore, WorldStorageStatus};
use seej::rng::{Pcg32Rng, UnlimitedClock};
use seej::runtime::{
    check_recovered_meta, check_snapshot_for, creation_gate, is_missing_meta_error, is_stale_meta_from_interrupted_save,
    load_recovered_world, load_snapshot_world, replay_durable_tail,
    validate_meta_mirror, validate_recovered_meta_mirror, validate_replay_covers_wal_tail, validate_wal_covers_snapshot,
    validate_wal_cursor_matches_durable_tail, validate_wal_prefix_is_contiguous, PersistentSimulation,
};
use seej::sim::{IRng, ISimClock};
use seej::snapshot::WorldSnapshot;
use seej::types::{EntityId, EntityKind, EventId, Position, RngSeed, SimTime, Tick, WorldPos, ZoneId};
use seej::world::{World, WorldMeta, CURRENT_FORMAT_VERSION};

#[derive(Default)]
struct TestWorldStore {
    metas: HashMap<String, WorldMeta>,
    snapshots: HashMap<String, WorldSnapshot>,
    incomplete: Option<String>,
}

impl IWorldStore for TestWorldStore {
    fn has_world(&self, world_id: &str) -> bool {
        self.metas.contains_key(world_id)
    }

    fn storage_status(&self, world_id: &str) -> Result<WorldStorageStatus, SimError> {
        if let Some(reason) = &self.incomplete {
            return Ok(WorldStorageStatus::Incomplete { reason: reason.clone() });
        }
        if self.has_world(world_id) {
            Ok(WorldStorageStatus::Complete)
        } else {
            Ok(WorldStorageStatus::Absent)
        }
    }

    fn list_worlds(&self) -> Result<Vec<String>, SimError> {
        Ok(self.metas.keys().cloned().collect())
    }

    fn load_meta(&self, world_id: &str) -> Result<WorldMeta, SimError> {
        self.metas.get(world_id).cloned().ok_or_else(|| SimError::NotFound(world_id.to_string()))
    }

    fn save_meta(&mut self, meta: &WorldMeta) -> Result<(), SimError> {
        self.metas.insert(meta.world_id.clone(), meta.clone());
        Ok(())
    }

    fn load_snapshot(&self, world_id: &str) -> Result<WorldSnapshot, SimError> {
        self.snapshots.get(world_id).cloned().ok_or_else(|| SimError::NotFound(world_id.to_string()))
    }

    fn save_snapshot(&mut self, world_id: &str, snapshot: &WorldSnapshot) -> Result<(), SimError> {
        self.snapshots.insert(world_id.to_string(), snapshot.clone());
        Ok(())
    }

    fn delete_world(&mut self, world_id: &str) -> Result<(), SimError> {
        self.metas.remove(world_id);
        self.snapshots.remove(world_id);
        Ok(())
    }

    fn world_path(&self, world_id: &str) -> String {
        format!("test://{}", world_id)
    }
}

struct FailOnNthBatchLog {
    events: Vec<SimEvent>,
    next_event_id: u64,
    batch_calls: usize,
    fail_on_batch: usize,
}

impl FailOnNthBatchLog {
    fn new(fail_on_batch: usize) -> Self {
        Self { events: Vec::new(), next_event_id: 1, batch_calls: 0, fail_on_batch }
    }
}

impl IEventLog for FailOnNthBatchLog {
    fn append(&mut self, event: SimEvent) -> Result<SimEvent, SimError> {
        let mut persisted = self.append_batch(vec![event])?;
        Ok(persisted.remove(0))
    }

    fn append_batch(&mut self, events: Vec<SimEvent>) -> Result<Vec<SimEvent>, SimError> {
        self.batch_calls += 1;
        if self.batch_calls == self.fail_on_batch {
            return Err(SimError::PersistenceError("forced append failure".to_string()));
        }
        let mut persisted = Vec::with_capacity(events.len());
        for mut event in events {
            event.event_id = EventId::new(self.next_event_id);
            self.next_event_id += 1;
            self.events.push(event.clone());
            persisted.push(event);
        }
        Ok(persisted)
    }

    fn read_from_event_id(&self, from_id: EventId) -> Result<Vec<SimEvent>, SimError> {
        Ok(self.events.iter().filter(|e| e.event_id.0 > from_id.0).cloned().collect())
    }

    fn read_all_valid(&self) -> Result<Vec<SimEvent>, SimError> {
        Ok(self.events.clone())
    }

    fn last_event_id(&self) -> EventId {
        self.events.last().map(|e| e.event_id).unwrap_or(EventId::zero())
    }

    fn last_tick(&self) -> Option<Tick> {
        self.events.last().map(|e| e.tick)
    }

    fn truncate_after(&mut self, event_id: EventId) -> Result<(), SimError> {
        self.events.retain(|e| e.event_id.0 <= event_id.0);
        self.next_event_id = self.events.last().map(|e| e.event_id.0 + 1).unwrap_or(1);
        Ok(())
    }

    fn sync(&mut self) -> Result<(), SimError> {
        Ok(())
    }

    fn len(&self) -> u64 {
        self.events.len() as u64
    }
}

type TestSim = PersistentSimulation<Pcg32Rng, UnlimitedClock, FailOnNthBatchLog, TestWorldStore>;

fn make_sim(log: FailOnNthBatchLog, store: TestWorldStore) -> TestSim {
    PersistentSimulation::new(Pcg32Rng::new(RngSeed::new(0)), UnlimitedClock::new(), log, store)
}

fn spawn(kind: EntityKind, zone: ZoneId, x: i32, props: EntityProperties) -> SimCommand {
    SimCommand::SpawnEntity(SpawnEntityCmd { position: WorldPos::new(zone, Position::new(x, 0, 0)), kind, properties: props })
}

fn create_world_with_entities(sim: &mut TestSim, seed: RngSeed) {
    sim.process_command(SimCommand::CreateWorld(CreateWorldCmd { name: "Recovery Determinism".to_string(), seed }))
        .expect("create world failed");
    for i in 0..5 {
        let props = EntityProperties { name: Some(format!("Resource_{}", i)), amount: Some(100), health: None };
        sim.process_command(spawn(EntityKind::Resource, ZoneId::origin(), i * 10, props)).expect("spawn resource failed");
    }
    for i in 0..3 {
        let props = EntityProperties { name: Some(format!("Creature_{}", i)), amount: None, health: Some(100) };
        sim.process_command(spawn(EntityKind::Creature, ZoneId::origin(), i * 10, props)).expect("spawn creature failed");
    }
}

fn run_ticks(sim: &mut TestSim, n: u64) {
    for _ in 0..n {
        sim.process_command(SimCommand::Tick).expect("tick failed");
    }
}

fn hash_world(world: &World) -> u64 {
    let mut hasher = XxHasher::new();
    compute_canonical_hash(world, &mut hasher).as_u64()
}

fn hash_and_tick(sim: &TestSim) -> (u64, Tick) {
    let world = sim.world().expect("world must be loaded");
    (hash_world(world), world.current_tick)
}

#[test]
fn append_failure_rolls_back_world_rng_and_clock() {
    let seed = RngSeed::new(42);
    let mut sim = make_sim(FailOnNthBatchLog::new(3), TestWorldStore::default());
    sim.process_command(SimCommand::CreateWorld(CreateWorldCmd { name: "Rollback".to_string(), seed })).unwrap();
    sim.process_command(spawn(
        EntityKind::Resource,
        ZoneId::origin(),
        0,
        EntityProperties { name: Some("ore".to_string()), amount: Some(10), health: None },
    ))
    .unwrap();
    let rng_before = sim.simulation().rng().state();
    let err = sim.process_command(SimCommand::Tick).unwrap_err();
    assert!(matches!(err, ApiError::StorageError(_)));
    let world = sim.world().unwrap();
    assert_eq!(world.current_tick, Tick::zero());
    assert_eq!(world.sim_time, SimTime::zero());
    assert_eq!(world.get_entity(EntityId::new(1)).unwrap().properties.amount, Some(10));
    assert_eq!(sim.current_tick(), Tick::zero());
    assert_eq!(sim.simulation().rng().state(), rng_before);
}

#[test]
fn command_error_rolls_back_world_rng_clock_and_pending_events() {
    let seed = RngSeed::new(43);
    let mut sim = make_sim(FailOnNthBatchLog::new(usize::MAX), TestWorldStore::default());
    sim.process_command(SimCommand::CreateWorld(CreateWorldCmd { name: "CommandRollback".to_string(), seed })).unwrap();
    let world_before = sim.world().unwrap().clone();
    let rng_before = sim.simulation().rng().state();
    let clock_before = sim.simulation().clock().current_tick();
    let err = sim
        .process_command(spawn(EntityKind::Resource, ZoneId::new(99), 0, EntityProperties::default()))
        .unwrap_err();
    assert!(matches!(err, ApiError::ZoneNotFound(_)));
    let world_after = sim.world().unwrap();
    assert_eq!(world_after.current_tick, world_before.current_tick);
    assert_eq!(world_after.next_entity_id, world_before.next_entity_id);
    assert_eq!(world_after.entity_count(), world_before.entity_count());
    assert_eq!(sim.simulation().rng().state(), rng_before);
    assert_eq!(sim.simulation().clock().current_tick(), clock_before);
    // The next successful command reports only its own events.
    let evs = sim.process_command(SimCommand::Tick).unwrap();
    assert_eq!(evs.len(), 1);
    assert!(matches!(evs[0].data, EventData::TickProcessed { .. }));
}

#[test]
fn load_world_rejects_unsupported_snapshot_format() {
    let seed = RngSeed::new(44);
    let mut world = World::new("OldFormat".to_string(), seed);
    world.meta.format_version = CURRENT_FORMAT_VERSION - 1;
    let world_id = world.id().to_string();
    let mut store = TestWorldStore::default();
    store.metas.insert(world_id.clone(), world.meta.clone());
    store.snapshots.insert(world_id.clone(), WorldSnapshot::of(&world));
    let mut sim = make_sim(FailOnNthBatchLog::new(usize::MAX), store);
    let err = sim.load_world(&world_id).unwrap_err();
    assert_eq!(err, ApiError::StorageError(SimError::UnsupportedFormat { found: 2, current: 3 }));
    assert!(sim.world().is_none());
}

#[test]
fn crash_replay_matches_continuous_run_hash() {
    let seed = RngSeed::new(424243);
    let wid = format!("world_{}", seed.as_u64());

    let mut continuous = make_sim(FailOnNthBatchLog::new(usize::MAX), TestWorldStore::default());
    create_world_with_entities(&mut continuous, seed);
    run_ticks(&mut continuous, 100);
    continuous.save_world().unwrap();
    run_ticks(&mut continuous, 40);
    let (continuous_hash_140, continuous_tick_140) = hash_and_tick(&continuous);
    assert_eq!(continuous_tick_140, Tick(140));
    run_ticks(&mut continuous, 60);
    let (continuous_hash_200, _) = hash_and_tick(&continuous);

    let mut phase_a = make_sim(FailOnNthBatchLog::new(usize::MAX), TestWorldStore::default());
    create_world_with_entities(&mut phase_a, seed);
    run_ticks(&mut phase_a, 100);
    phase_a.save_world().unwrap();
    run_ticks(&mut phase_a, 40);
    // A crash: the simulation is lost, the log and the store survive.
    let (_, log, store) = phase_a.into_parts();

    let mut recovered = make_sim(log, store);
    let replayed = recovered.load_world(&wid).unwrap();
    assert_eq!(replayed.iter().filter(|e| matches!(e.data, EventData::TickProcessed { .. })).count(), 40);
    let (recovered_hash_140, recovered_tick_140) = hash_and_tick(&recovered);
    assert_eq!(recovered_tick_140, Tick(140));
    assert_eq!(recovered_hash_140, continuous_hash_140);
    run_ticks(&mut recovered, 60);
    let (recovered_hash_200, recovered_tick_200) = hash_and_tick(&recovered);
    assert_eq!(recovered_tick_200, Tick(200));
    assert_eq!(recovered_hash_200, continuous_hash_200);
}

#[test]
fn clean_restart_matches_continuous_run_hash() {
    let seed = RngSeed::new(424242);
    let wid = format!("world_{}", seed.as_u64());

    let mut continuous = make_sim(FailOnNthBatchLog::new(usize::MAX), TestWorldStore::default());
    create_world_with_entities(&mut continuous, seed);
    run_ticks(&mut continuous, 100);
    continuous.save_world().unwrap();
    run_ticks(&mut continuous, 100);
    let (continuous_hash_200, continuous_tick_200) = hash_and_tick(&continuous);
    assert_eq!(continuous_tick_200, Tick(200));

    let mut phase_a = make_sim(FailOnNthBatchLog::new(usize::MAX), TestWorldStore::default());
    create_world_with_entities(&mut phase_a, seed);
    run_ticks(&mut phase_a, 100);
    phase_a.save_world().unwrap();
    let (_, log, store) = phase_a.into_parts();

    let mut phase_b = make_sim(log, store);
    let replayed = phase_b.load_world(&wid).unwrap();
    assert!(replayed.is_empty());
    run_ticks(&mut phase_b, 100);
    let (restart_hash_200, restart_tick_200) = hash_and_tick(&phase_b);
    assert_eq!(restart_tick_200, Tick(200));
    assert_eq!(continuous_hash_200, restart_hash_200);
}

#[test]
fn saved_meta_cursor_points_to_last_logged_event() {
    let seed = RngSeed::new(424245);
    let wid = format!("world_{}", seed.as_u64());
    let mut sim = make_sim(FailOnNthBatchLog::new(usize::MAX), TestWorldStore::default());
    sim.process_command(SimCommand::CreateWorld(CreateWorldCmd { name: "Cursor".to_string(), seed })).unwrap();
    sim.process_command(spawn(
        EntityKind::Resource,
        ZoneId::origin(),
        0,
        EntityProperties { name: Some("Resource".to_string()), amount: Some(10), health: None },
    ))
    .unwrap();
    sim.save_world().unwrap();
    let (_, log, store) = sim.into_parts();
    let meta = store.load_meta(&wid).unwrap();
    assert_eq!(meta.last_event_id, EventId::new(3));
    assert_eq!(meta.snapshot_tick, Tick(0));
    assert_eq!(log.read_from_event_id(meta.last_event_id).unwrap().len(), 0);
    let world = load_snapshot_world(&store, &wid).unwrap();
    assert_eq!(world.entity_count(), 1);
    let (recovered, replayed) = load_recovered_world(&store, &log, &wid).unwrap();
    assert!(replayed.is_empty());
    assert_eq!(hash_world(&recovered), hash_world(&world));
}

#[test]
fn create_world_refuses_existing_or_incomplete_storage_and_non_empty_log() {
    let seed = RngSeed::new(9);
    let mut store = TestWorldStore::default();
    let world = World::new("Existing".to_string(), seed);
    store.metas.insert("world_9".to_string(), world.meta.clone());
    let mut sim = make_sim(FailOnNthBatchLog::new(usize::MAX), store);
    let err = sim.process_command(SimCommand::CreateWorld(CreateWorldCmd { name: "Again".to_string(), seed })).unwrap_err();
    assert_eq!(err, ApiError::WorldAlreadyExists("world_9".to_string()));
    assert!(sim.world().is_none());

    let store = TestWorldStore { incomplete: Some("meta missing".to_string()), ..Default::default() };
    let mut sim = make_sim(FailOnNthBatchLog::new(usize::MAX), store);
    let err = sim.process_command(SimCommand::CreateWorld(CreateWorldCmd { name: "X".to_string(), seed })).unwrap_err();
    assert_eq!(
        err,
        ApiError::StorageError(SimError::IncompleteStorage { world_id: "world_9".to_string(), reason: "meta missing".to_string() })
    );

    let mut log = FailOnNthBatchLog::new(usize::MAX);
    log.append(SimEvent::new(Tick(0), EventData::WorldSaved { tick: Tick(0) })).unwrap();
    let mut sim = make_sim(log, TestWorldStore::default());
    let err = sim.process_command(SimCommand::CreateWorld(CreateWorldCmd { name: "X".to_string(), seed })).unwrap_err();
    assert_eq!(err, ApiError::StorageError(SimError::WalNotEmpty { world_id: "world_9".to_string(), events: 1 }));
}

#[test]
fn save_without_world_and_load_of_unknown_world() {
    let mut sim = make_sim(FailOnNthBatchLog::new(usize::MAX), TestWorldStore::default());
    assert_eq!(sim.save_world(), Err(ApiError::NoWorldLoaded));
    assert_eq!(sim.load_world("world_77"), Err(ApiError::WorldNotFound("world_77".to_string())));
    assert!(matches!(sim.load_world("../x"), Err(ApiError::StorageError(SimError::InvalidWorldId { .. }))));
}

#[test]
fn recovery_rejects_a_log_behind_or_broken() {
    let seed = RngSeed::new(11);
    let wid = "world_11".to_string();
    let mut sim = make_sim(FailOnNthBatchLog::new(usize::MAX), TestWorldStore::default());
    sim.process_command(SimCommand::CreateWorld(CreateWorldCmd { name: "Log".to_string(), seed })).unwrap();
    run_ticks(&mut sim, 3);
    sim.save_world().unwrap();
    let (_, mut log, store) = sim.into_parts();
    // Dropping the log's tail leaves it behind the snapshot cursor.
    log.truncate_after(EventId::new(2)).unwrap();
    let err = load_recovered_world(&store, &log, &wid).unwrap_err();
    assert_eq!(
        err,
        SimError::CorruptedState(Corruption::WalBehindSnapshot {
            wal_last_event_id: EventId::new(2),
            snapshot_last_event_id: EventId::new(5)
        })
    );
}

#[test]
fn recovery_validators() {
    let world = World::new("V".to_string(), RngSeed::new(1));
    let meta = world.meta.clone();
    assert_eq!(validate_meta_mirror(&meta, &meta), Ok(()));
    let mut stale = meta.clone();
    let mut newer = meta.clone();
    newer.last_event_id = EventId::new(4);
    newer.current_tick = Tick(2);
    newer.snapshot_tick = Tick(2);
    newer.sim_time = SimTime { units: 2 };
    stale.last_event_id = EventId::new(1);
    assert!(is_stale_meta_from_interrupted_save(&newer, &stale));
    assert!(!is_stale_meta_from_interrupted_save(&stale, &newer));
    assert_eq!(validate_recovered_meta_mirror(&newer, &stale), Ok(()));
    assert_eq!(validate_meta_mirror(&newer, &stale), Err(SimError::CorruptedState(Corruption::MetaMismatch)));
    assert_eq!(validate_recovered_meta_mirror(&stale, &newer), Err(SimError::CorruptedState(Corruption::MetaMismatch)));
    assert!(is_missing_meta_error(&SimError::NotFound("m".to_string())));
    assert!(!is_missing_meta_error(&SimError::PersistenceError("m".to_string())));
    assert_eq!(validate_wal_covers_snapshot(EventId::new(3), EventId::new(3)), Ok(()));
    assert!(validate_wal_covers_snapshot(EventId::new(4), EventId::new(3)).is_err());
    assert_eq!(validate_wal_cursor_matches_durable_tail(EventId::new(2), EventId::new(2)), Ok(()));
    assert_eq!(
        validate_wal_cursor_matches_durable_tail(EventId::new(3), EventId::new(2)),
        Err(SimError::CorruptedState(Corruption::WalCursorMismatch { announced: EventId::new(3), durable: EventId::new(2) }))
    );
    let ev = |id: u64| SimEvent::with_id(EventId::new(id), Tick(0), EventData::WorldSaved { tick: Tick(0) });
    assert_eq!(validate_wal_prefix_is_contiguous(&[ev(1), ev(2), ev(3)]), Ok(()));
    assert_eq!(
        validate_wal_prefix_is_contiguous(&[ev(1), ev(3)]),
        Err(SimError::CorruptedState(Corruption::WalNotContiguous { expected: EventId::new(2), found: EventId::new(3) }))
    );
    assert_eq!(validate_replay_covers_wal_tail(EventId::new(2), EventId::new(4), &[ev(3), ev(4)]), Ok(()));
    assert_eq!(
        validate_replay_covers_wal_tail(EventId::new(2), EventId::new(4), &[ev(3)]),
        Err(SimError::CorruptedState(Corruption::ReplayRangeShort { next_expected: EventId::new(4), wal_last_event_id: EventId::new(4) }))
    );
    assert_eq!(
        validate_replay_covers_wal_tail(EventId::new(2), EventId::new(4), &[ev(4)]),
        Err(SimError::CorruptedState(Corruption::ReplayRangeIncomplete { expected: EventId::new(3), found: EventId::new(4) }))
    );
}

#[test]
fn replay_durable_tail_checks_the_log_then_replays_after_the_cursor() {
    let ev = |id: u64, t: u64| SimEvent::with_id(EventId::new(id), Tick(t), EventData::WorldSaved { tick: Tick(t) });
    let mut world = World::new("Tail".to_string(), RngSeed::new(3));
    world.meta.last_event_id = EventId::new(1);

    assert_eq!(
        replay_durable_tail(&mut world, EventId::new(3), vec![ev(1, 0), ev(2, 0)]),
        Err(SimError::CorruptedState(Corruption::WalCursorMismatch { announced: EventId::new(3), durable: EventId::new(2) }))
    );
    assert_eq!(
        replay_durable_tail(&mut world, EventId::new(3), vec![ev(1, 0), ev(3, 0)]),
        Err(SimError::CorruptedState(Corruption::WalNotContiguous { expected: EventId::new(2), found: EventId::new(3) }))
    );
    assert_eq!(
        replay_durable_tail(&mut world, EventId::new(0), vec![]),
        Err(SimError::CorruptedState(Corruption::WalBehindSnapshot {
            wal_last_event_id: EventId::new(0),
            snapshot_last_event_id: EventId::new(1)
        }))
    );
    assert!(matches!(
        replay_durable_tail(&mut world, EventId::new(2), vec![ev(1, 0), ev(2, 7)]),
        Err(SimError::CorruptedState(Corruption::ReplayFailed { event_id, .. })) if event_id == EventId::new(2)
    ));
    let replayed = replay_durable_tail(&mut world, EventId::new(3), vec![ev(1, 0), ev(2, 0), ev(3, 0)]).unwrap();
    assert_eq!(replayed, vec![ev(2, 0), ev(3, 0)]);
    assert_eq!(world.current_tick, Tick(0));
}

struct NamesOnlyStore {
    names: Vec<String>,
}

impl IWorldStore for NamesOnlyStore {
    fn has_world(&self, world_id: &str) -> bool {
        self.names.iter().any(|n| n == world_id)
    }
    fn list_worlds(&self) -> Result<Vec<String>, SimError> {
        Ok(self.names.clone())
    }
    fn load_meta(&self, world_id: &str) -> Result<WorldMeta, SimError> {
        Err(SimError::NotFound(world_id.to_string()))
    }
    fn save_meta(&mut self, _meta: &WorldMeta) -> Result<(), SimError> {
        Ok(())
    }
    fn load_snapshot(&self, world_id: &str) -> Result<WorldSnapshot, SimError> {
        Err(SimError::NotFound(world_id.to_string()))
    }
    fn save_snapshot(&mut self, _world_id: &str, _snapshot: &WorldSnapshot) -> Result<(), SimError> {
        Ok(())
    }
    fn delete_world(&mut self, _world_id: &str) -> Result<(), SimError> {
        Ok(())
    }
    fn world_path(&self, world_id: &str) -> String {
        world_id.to_string()
    }
}

#[test]
fn default_storage_status_follows_has_world() {
    let store = NamesOnlyStore { names: vec!["world_1".to_string()] };
    assert!(matches!(store.storage_status("world_1"), Ok(WorldStorageStatus::Complete)));
    assert!(matches!(store.storage_status("world_2"), Ok(WorldStorageStatus::Absent)));
}

#[test]
fn creation_gate_decides_from_storage_status_and_log() {
    let id = "world_5".to_string();
    assert_eq!(creation_gate(Ok(WorldStorageStatus::Absent), true, 0, id.clone()), Ok(()));
    assert_eq!(
        creation_gate(Ok(WorldStorageStatus::Complete), true, 0, id.clone()),
        Err(ApiError::WorldAlreadyExists(id.clone()))
    );
    assert_eq!(
        creation_gate(Ok(WorldStorageStatus::Incomplete { reason: "orphan WAL".to_string() }), true, 0, id.clone()),
        Err(ApiError::StorageError(SimError::IncompleteStorage { world_id: id.clone(), reason: "orphan WAL".to_string() }))
    );
    assert_eq!(
        creation_gate(Err(SimError::PersistenceError("disk".to_string())), true, 0, id.clone()),
        Err(ApiError::StorageError(SimError::PersistenceError("disk".to_string())))
    );
    assert_eq!(
        creation_gate(Ok(WorldStorageStatus::Absent), false, 4, id.clone()),
        Err(ApiError::StorageError(SimError::WalNotEmpty { world_id: id, events: 4 }))
    );
}

#[test]
fn snapshot_and_meta_checks_for_recovery() {
    let world = World::new("Checks".to_string(), RngSeed::new(6));
    let id = world.id().to_string();
    let loaded = check_snapshot_for(&id, WorldSnapshot::of(&world)).unwrap();
    assert_eq!(loaded.meta, world.meta);
    assert!(matches!(
        check_snapshot_for("world_7", WorldSnapshot::of(&world)),
        Err(SimError::CorruptedState(Corruption::WorldIdMismatch { .. }))
    ));
    let mut old = world.clone();
    old.meta.format_version = CURRENT_FORMAT_VERSION - 1;
    assert_eq!(
        check_snapshot_for(&id, WorldSnapshot::of(&old)),
        Err(SimError::UnsupportedFormat { found: CURRENT_FORMAT_VERSION - 1, current: CURRENT_FORMAT_VERSION })
    );
    assert_eq!(check_recovered_meta(&world.meta, Ok(world.meta.clone())), Ok(()));
    assert_eq!(check_recovered_meta(&world.meta, Err(SimError::NotFound("meta".to_string()))), Ok(()));
    let mut other = world.meta.clone();
    other.seed = RngSeed::new(99);
    assert_eq!(check_recovered_meta(&world.meta, Ok(other)), Err(SimError::CorruptedState(Corruption::MetaMismatch)));
    assert_eq!(
        check_recovered_meta(&world.meta, Err(SimError::InvalidWorldId { world_id: id.clone(), errors: vec![] })),
        Err(SimError::StoreRejectedWorldId { world_id: id, errors: vec![] })
    );
}
