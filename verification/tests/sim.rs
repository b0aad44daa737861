use seej::commands::{CreateWorldCmd, CreateZoneCmd, EntityProperties, SimCommand, SpawnEntityCmd};
use seej::determinism::compute_canonical_hash;
use seej::errors::{ApiError, ValidationError};
use seej::events::{DespawnReason, EventData};
use seej::hash::XxHasher;
use seej::rng::{Pcg32Rng, UnlimitedClock};
use seej::sim::{IRng, ISimClock, Probability, Simulation};
use seej::types::{EntityId, EntityKind, Position, RngSeed, Tick, WorldPos, ZoneId};

type Sim = Simulation<Pcg32Rng, UnlimitedClock>;

fn new_sim() -> Sim {
    Simulation::new(Pcg32Rng::new(RngSeed::new(0)), UnlimitedClock::new())
}

fn create(sim: &mut Sim, seed: u64) {
    sim.process_command(SimCommand::CreateWorld(CreateWorldCmd { name: "Sim".to_string(), seed: RngSeed::new(seed) }))
        .unwrap();
}

fn spawn(sim: &mut Sim, kind: EntityKind, amount: Option<u32>, health: Option<u32>) -> EntityId {
    let evs = sim
        .process_command(SimCommand::SpawnEntity(SpawnEntityCmd {
            position: WorldPos::new(ZoneId::origin(), Position::new(1, 2, 3)),
            kind,
            properties: EntityProperties { name: None, amount, health },
        }))
        .unwrap();
    match &evs[0].data {
        EventData::EntitySpawned { entity_id, .. } => *entity_id,
        other => panic!("unexpected {other:?}"),
    }
}

fn hash(sim: &Sim) -> u64 {
    let mut h = XxHasher::new();
    compute_canonical_hash(sim.world().unwrap(), &mut h).as_u64()
}

#[test]
fn create_world_reports_world_and_origin_zone() {
    let mut sim = new_sim();
    let evs = sim
        .process_command(SimCommand::CreateWorld(CreateWorldCmd { name: "Genesis".to_string(), seed: RngSeed::new(42) }))
        .unwrap();
    assert_eq!(evs.len(), 2);
    assert_eq!(
        evs[0].data,
        EventData::WorldCreated { world_id: "world_42".to_string(), name: "Genesis".to_string(), seed: RngSeed::new(42) }
    );
    assert_eq!(evs[1].data, EventData::ZoneCreated { zone_id: ZoneId::new(0), name: Some("Origin".to_string()) });
    let w = sim.world().unwrap();
    assert_eq!(w.id(), "world_42");
    assert_eq!(w.next_entity_id, 1);
    assert_eq!(w.rng_state, 42);
    assert_eq!(sim.rng().state(), 42);
    assert_eq!(sim.current_tick(), Tick(0));
    let err = sim
        .process_command(SimCommand::CreateWorld(CreateWorldCmd { name: "Again".to_string(), seed: RngSeed::new(1) }))
        .unwrap_err();
    assert_eq!(err, ApiError::WorldAlreadyExists("world_42".to_string()));
}

#[test]
fn commands_need_a_world() {
    let mut sim = new_sim();
    assert_eq!(sim.process_command(SimCommand::Tick), Err(ApiError::NoWorldLoaded));
    assert_eq!(sim.process_command(SimCommand::DespawnEntity(EntityId::new(1))), Err(ApiError::NoWorldLoaded));
    assert_eq!(sim.process_command(SimCommand::TickN(0)), Err(ApiError::ValidationFailed(vec![ValidationError::TickCountZero])));
    assert!(!sim.has_world());
}

#[test]
fn tick_n_equals_n_ticks() {
    let mut a = new_sim();
    let mut b = new_sim();
    for sim in [&mut a, &mut b] {
        create(sim, 7);
        for _ in 0..4 {
            spawn(sim, EntityKind::Resource, Some(3), None);
            spawn(sim, EntityKind::Creature, None, Some(2));
        }
    }
    let evs_a = a.process_command(SimCommand::TickN(250)).unwrap();
    let mut evs_b = Vec::new();
    for _ in 0..250 {
        evs_b.extend(b.process_command(SimCommand::Tick).unwrap());
    }
    assert_eq!(evs_a, evs_b);
    assert_eq!(hash(&a), hash(&b));
    assert_eq!(a.current_tick(), Tick(250));
    assert_eq!(a.clock().current_tick(), Tick(250));
}

#[test]
fn spawn_despawn_and_zones() {
    let mut sim = new_sim();
    create(&mut sim, 3);
    let id = spawn(&mut sim, EntityKind::Item, None, None);
    assert_eq!(id, EntityId::new(1));
    assert_eq!(sim.world().unwrap().get_zone(ZoneId::origin()).unwrap().entities, vec![id]);
    let evs = sim.process_command(SimCommand::DespawnEntity(id)).unwrap();
    assert_eq!(evs[0].data, EventData::EntityDespawned { entity_id: id, reason: DespawnReason::Command });
    assert_eq!(sim.world().unwrap().entity_count(), 0);
    assert!(sim.world().unwrap().get_zone(ZoneId::origin()).unwrap().entities.is_empty());
    assert_eq!(sim.process_command(SimCommand::DespawnEntity(id)), Err(ApiError::EntityNotFound(id)));
    sim.process_command(SimCommand::CreateZone(CreateZoneCmd { zone_id: ZoneId::new(5), name: None })).unwrap();
    assert_eq!(
        sim.process_command(SimCommand::CreateZone(CreateZoneCmd { zone_id: ZoneId::new(5), name: None })),
        Err(ApiError::ZoneAlreadyExists(ZoneId::new(5)))
    );
    assert_eq!(sim.world().unwrap().zone_count(), 2);
    // ids keep counting after a despawn
    assert_eq!(spawn(&mut sim, EntityKind::Item, None, None), EntityId::new(2));
}

#[test]
fn dead_entities_are_removed_every_hundredth_tick() {
    let mut sim = new_sim();
    create(&mut sim, 11);
    for _ in 0..20 {
        spawn(&mut sim, EntityKind::Creature, None, Some(1));
    }
    sim.process_command(SimCommand::TickN(99)).unwrap();
    let w = sim.world().unwrap();
    let dead_before = w.entities.iter().filter(|e| e.is_dead()).count();
    assert_eq!(w.entity_count(), 20);
    assert!(dead_before > 0, "0.5% per tick over 99 ticks must hit someone among 20");
    let evs = sim.process_command(SimCommand::Tick).unwrap();
    let despawned = evs
        .iter()
        .filter(|e| matches!(e.data, EventData::EntityDespawned { reason: DespawnReason::Death, .. }))
        .count();
    assert!(despawned >= dead_before);
    assert!(sim.world().unwrap().entities.iter().all(|e| !e.is_dead()));
    assert!(matches!(evs.last().unwrap().data, EventData::TickProcessed { tick: Tick(100), .. }));
}

#[test]
fn pcg_stream_is_deterministic_and_restorable() {
    let mut a = Pcg32Rng::new(RngSeed::new(5));
    let mut b = Pcg32Rng::new(RngSeed::new(5));
    let xs: Vec<u32> = (0..8).map(|_| a.next_u32()).collect();
    let ys: Vec<u32> = (0..8).map(|_| b.next_u32()).collect();
    assert_eq!(xs, ys);
    let s = a.state();
    let n = a.next_u64();
    a.restore(s);
    assert_eq!(a.next_u64(), n);
    assert_eq!(a.seed(), RngSeed::new(5));
    assert!(!a.chance(Probability { parts_per_million: 0 }));
    assert!(a.chance(Probability { parts_per_million: 1_000_000 }));
    // the first output of the PCG32 (XSH-RR) stream from state 0
    let mut z = Pcg32Rng::new(RngSeed::new(0));
    assert_eq!(z.next_u32(), 0);
    assert_eq!(z.state(), 1442695040888963407);
}

#[test]
fn unlimited_clock_always_ticks() {
    let mut c = UnlimitedClock::new();
    assert!(c.should_tick());
    assert_eq!(c.advance(), Tick(1));
    c.set_tick(Tick(9));
    assert_eq!(c.current_tick(), Tick(9));
    assert_eq!(c.sim_time().units, 9);
}

#[test]
fn failed_command_leaves_no_trace_in_later_events() {
    let mut sim = new_sim();
    create(&mut sim, 2);
    let before = hash(&sim);
    assert_eq!(
        sim.process_command(SimCommand::SpawnEntity(SpawnEntityCmd {
            position: WorldPos::new(ZoneId::new(8), Position::new(0, 0, 0)),
            kind: EntityKind::Item,
            properties: EntityProperties::default(),
        })),
        Err(ApiError::ZoneNotFound(ZoneId::new(8)))
    );
    assert_eq!(hash(&sim), before);
    let evs = sim.process_command(SimCommand::Tick).unwrap();
    assert_eq!(evs.len(), 1);
}
