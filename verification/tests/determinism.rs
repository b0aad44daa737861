use seej::commands::{CreateZoneCmd, SimCommand};
use seej::determinism::{
    compute_canonical_hash, run_deterministic, verify_determinism, Checkpoint, DeterministicRunConfig,
    DeterministicRunResult, IStateHasher, ScheduledCommand, StateHash,
};
use seej::errors::{ApiError, ValidationError};
use seej::hash::XxHasher;
use seej::rng::{Pcg32Rng, UnlimitedClock};
use seej::types::{EntityId, RngSeed, Tick, ZoneId};
use seej::world::World;

#[test]
fn canonical_hash_changes_when_zone_membership_changes() {
    let seed = RngSeed::new(42);
    let mut a = World::new("Hash".to_string(), seed);
    let mut b = a.clone();
    a.zones[0].entities.push(EntityId::new(1));
    b.zones[0].entities.push(EntityId::new(2));
    let mut hasher = XxHasher::new();
    let hash_a = compute_canonical_hash(&a, &mut hasher);
    let hash_b = compute_canonical_hash(&b, &mut hasher);
    assert_ne!(hash_a, hash_b);
}

#[test]
fn deterministic_replay_same_inputs_same_hashes() {
    let seed = RngSeed::new(42);
    let config = DeterministicRunConfig {
        seed,
        world_name: "Test World".to_string(),
        inputs: Vec::new(),
        total_ticks: 10,
        checkpoint_every: 5,
    };
    let mut hasher_a = XxHasher::new();
    let mut hasher_b = XxHasher::new();
    let a = run_deterministic(&config, Pcg32Rng::new(seed), UnlimitedClock::new(), &mut hasher_a).unwrap();
    let b = run_deterministic(&config, Pcg32Rng::new(seed), UnlimitedClock::new(), &mut hasher_b).unwrap();
    verify_determinism(&a, &b).expect("runs must match");
    assert_eq!(a.checkpoints.len(), 2);
    assert_eq!(a.checkpoints[0].tick, Tick(5));
    assert_eq!(a.checkpoints[1].tick, Tick(10));
    assert_eq!(a.final_tick, Tick(10));
}

#[test]
fn run_with_scheduled_inputs_checkpoints_every_period_and_at_the_end() {
    let seed = RngSeed::new(7);
    let config = DeterministicRunConfig {
        seed,
        world_name: "Inputs".to_string(),
        inputs: vec![
            ScheduledCommand { tick: Tick(3), command: SimCommand::TickN(2) },
            ScheduledCommand { tick: Tick(1), command: SimCommand::CreateZone(CreateZoneCmd { zone_id: ZoneId::new(4), name: None }) },
        ],
        total_ticks: 7,
        checkpoint_every: 3,
    };
    let mut h = XxHasher::new();
    let r = run_deterministic(&config, Pcg32Rng::new(seed), UnlimitedClock::new(), &mut h).unwrap();
    // checkpoints after ticks 3, 6 and the last (7); the TickN(2) at tick 3 adds two ticks.
    assert_eq!(r.checkpoints.len(), 3);
    assert_eq!(r.checkpoints[0].tick, Tick(3));
    assert_eq!(r.checkpoints[1].tick, Tick(8));
    assert_eq!(r.checkpoints[2].tick, Tick(9));
    assert_eq!(r.final_tick, Tick(9));
}

#[test]
fn run_with_invalid_world_name_fails_validation() {
    let config = DeterministicRunConfig {
        seed: RngSeed::new(1),
        world_name: String::new(),
        inputs: Vec::new(),
        total_ticks: 3,
        checkpoint_every: 1,
    };
    let mut h = XxHasher::new();
    let r = run_deterministic(&config, Pcg32Rng::new(RngSeed::new(1)), UnlimitedClock::new(), &mut h);
    assert!(matches!(r, Err(ApiError::ValidationFailed(ref e)) if *e == vec![ValidationError::WorldNameEmpty]));
}

#[test]
fn run_with_zero_ticks_has_no_checkpoint() {
    let config = DeterministicRunConfig {
        seed: RngSeed::new(3),
        world_name: "Zero".to_string(),
        inputs: Vec::new(),
        total_ticks: 0,
        checkpoint_every: 0,
    };
    let mut h = XxHasher::new();
    let r = run_deterministic(&config, Pcg32Rng::new(RngSeed::new(3)), UnlimitedClock::new(), &mut h).unwrap();
    assert!(r.checkpoints.is_empty());
    assert_eq!(r.final_tick, Tick(0));
}

#[test]
fn verify_determinism_reports_first_divergence() {
    let cp = |t: u64, h: u64| Checkpoint { tick: Tick(t), hash: StateHash(h) };
    let a = DeterministicRunResult { checkpoints: vec![cp(5, 1), cp(10, 2)], final_tick: Tick(10) };
    let b = DeterministicRunResult { checkpoints: vec![cp(5, 1), cp(10, 3)], final_tick: Tick(10) };
    assert_eq!(verify_determinism(&a, &b), Err(Tick(10)));
    let c = DeterministicRunResult { checkpoints: vec![cp(4, 1), cp(10, 2)], final_tick: Tick(10) };
    assert_eq!(verify_determinism(&a, &c), Err(Tick(4)));
    let d = DeterministicRunResult { checkpoints: vec![cp(5, 1)], final_tick: Tick(5) };
    assert_eq!(verify_determinism(&a, &d), Err(Tick(0)));
    assert_eq!(verify_determinism(&a, &a), Ok(()));
}

#[test]
fn scheduled_command_from_is_at_tick_zero() {
    let s: ScheduledCommand = SimCommand::Tick.into();
    assert_eq!(s.tick, Tick(0));
    assert!(matches!(s.command, SimCommand::Tick));
}

#[test]
fn xx_hasher_digests_bytes_fed_since_reset() {
    let mut a = XxHasher::new();
    a.update(b"hello ");
    a.update(b"world");
    let mut b = XxHasher::new();
    b.update(b"junk");
    b.reset();
    b.update(b"hello world");
    assert_eq!(a.finalize(), b.finalize());
    // xxHash64 of the empty input with seed 0.
    assert_eq!(XxHasher::new().finalize(), StateHash(0xEF46DB3751D8E999));
    let mut c = XxHasher::new();
    c.update(b"hello world!");
    assert_ne!(a.finalize(), c.finalize());
}

#[test]
fn canonical_hash_is_stable_for_equal_worlds() {
    let a = World::new("Same".to_string(), RngSeed::new(9));
    let b = World::new("Same".to_string(), RngSeed::new(9));
    let mut h = XxHasher::new();
    assert_eq!(compute_canonical_hash(&a, &mut h), compute_canonical_hash(&b, &mut h));
    let c = World::new("Other".to_string(), RngSeed::new(9));
    assert_ne!(compute_canonical_hash(&a, &mut h), compute_canonical_hash(&c, &mut h));
}

#[test]
fn canonical_hash_tells_worlds_apart_by_their_recovery_cursors() {
    let a = World::new("Cursor".to_string(), RngSeed::new(8));
    let mut b = a.clone();
    b.meta.snapshot_tick = Tick(1);
    let mut c = a.clone();
    c.meta.last_event_id = seej::types::EventId::new(1);
    let mut h = XxHasher::new();
    let ha = compute_canonical_hash(&a, &mut h);
    assert_ne!(ha, compute_canonical_hash(&b, &mut h));
    assert_ne!(ha, compute_canonical_hash(&c, &mut h));
    assert_ne!(compute_canonical_hash(&b, &mut h), compute_canonical_hash(&c, &mut h));
}
