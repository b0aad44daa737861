//! Canonical state hashing and deterministic-run helpers.
use vstd::prelude::*;

use crate::commands::{CreateWorldCmd, SimCommand};
use crate::errors::ApiError;
use crate::events::SimEvent;
use crate::sim::{created_world, spec_world_command, view_within_limits, IRng, ISimClock, SimState, Simulation};
use crate::validation::command_errors;
use crate::types::{EntityKind, EntityState, RngSeed, Tick};
use crate::world::{Entity, World, WorldMeta, WorldView, ZoneView};
use crate::keyed::{increasing, key_seq, lemma_increasing_unique, lemma_keyed_index, lemma_sorted_keys, sorted_keys};
use vstd::bytes::{spec_u32_to_le_bytes, spec_u64_to_le_bytes, u32_to_le_bytes, u64_to_le_bytes};
use vstd::string::StringSliceAdditionalSpecFns;

verus! {

/// A 64-bit digest of a world state.
#[derive(Clone, Copy, Debug, PartialEq, Eq, Structural, Hash)]
pub struct StateHash(pub u64);

impl StateHash {
    pub fn as_u64(&self) -> (r: u64)
        ensures
            r == self.0,
    {
        self.0
    }
}

/// Injected streaming hasher. Its digest is a function of the bytes fed since
/// the last reset.
pub trait IStateHasher {
    /// Bytes fed since the last reset.
    spec fn absorbed(&self) -> Seq<u8>;

    /// The digest of a byte string.
    spec fn digest_of(bytes: Seq<u8>) -> u64;

    fn reset(&mut self)
        ensures
            final(self).absorbed() == Seq::<u8>::empty(),
    ;

    fn update(&mut self, data: &[u8])
        ensures
            final(self).absorbed() == old(self).absorbed() + data@,
    ;

    fn finalize(&self) -> (h: StateHash)
        ensures
            h.0 == Self::digest_of(self.absorbed()),
    ;
}

pub open spec fn le64(v: u64) -> Seq<u8> {
    spec_u64_to_le_bytes(v)
}

pub open spec fn le32(v: u32) -> Seq<u8> {
    spec_u32_to_le_bytes(v)
}

pub open spec fn utf8(s: String) -> Seq<u8> {
    vstd::utf8::encode_utf8(s@)
}

/// A string: its byte length, then its UTF-8 bytes.
pub open spec fn str_bytes(s: String) -> Seq<u8> {
    le64((utf8(s).len() as usize) as u64) + utf8(s)
}

pub open spec fn opt_str_bytes(o: Option<String>) -> Seq<u8> {
    match o {
        Some(s) => seq![1u8] + str_bytes(s),
        None => seq![0u8],
    }
}

pub open spec fn opt_u32_bytes(o: Option<u32>) -> Seq<u8> {
    match o {
        Some(v) => seq![1u8] + le32(v),
        None => seq![0u8],
    }
}

pub open spec fn kind_byte(k: EntityKind) -> u8 {
    match k {
        EntityKind::Resource => 0,
        EntityKind::Creature => 1,
        EntityKind::Item => 2,
        EntityKind::Structure => 3,
    }
}

pub open spec fn state_byte(s: EntityState) -> u8 {
    match s {
        EntityState::Active => 0,
        EntityState::Dormant => 1,
        EntityState::Dead => 2,
    }
}

pub open spec fn meta_bytes(m: WorldMeta) -> Seq<u8> {
    str_bytes(m.world_id) + str_bytes(m.name) + le64(m.seed.0) + le64(m.current_tick.0) + le64(m.sim_time.units)
        + le64(m.created_tick.0) + le64(m.snapshot_tick.0) + le64(m.last_event_id.0) + le32(m.format_version)
}

/// One entity, preceded by its table key (its id).
pub open spec fn entity_bytes(e: Entity) -> Seq<u8> {
    le64(e.id.0) + le64(e.id.0) + seq![kind_byte(e.kind)] + seq![state_byte(e.state)] + le32(e.position.zone.0)
        + le32(e.position.pos.x as u32) + le32(e.position.pos.y as u32) + le32(e.position.pos.z as u32)
        + le64(e.created_at.0) + opt_str_bytes(e.properties.name) + opt_u32_bytes(e.properties.amount)
        + opt_u32_bytes(e.properties.health)
}

pub open spec fn ids_bytes(ids: Seq<crate::types::EntityId>) -> Seq<u8>
    decreases ids.len(),
{
    if ids.len() == 0 {
        Seq::empty()
    } else {
        ids_bytes(ids.drop_last()) + le64(ids.last().0)
    }
}

/// One zone, preceded by its table key (its id), with its entity index.
pub open spec fn zone_bytes(z: ZoneView) -> Seq<u8> {
    le32(z.id.0) + le32(z.id.0) + opt_str_bytes(z.name) + seq![if z.loaded { 1u8 } else { 0u8 }]
        + le64(z.entities.len() as u64) + ids_bytes(z.entities)
}

pub open spec fn entities_bytes(s: Seq<Entity>) -> Seq<u8>
    decreases s.len(),
{
    if s.len() == 0 {
        Seq::empty()
    } else {
        entities_bytes(s.drop_last()) + entity_bytes(s.last())
    }
}

pub open spec fn zones_bytes(s: Seq<ZoneView>) -> Seq<u8>
    decreases s.len(),
{
    if s.len() == 0 {
        Seq::empty()
    } else {
        zones_bytes(s.drop_last()) + zone_bytes(s.last())
    }
}

/// The canonical byte encoding of the complete persistent world state, in
/// stable field and ascending-id order. It includes the recovery cursors.
pub open spec fn canonical_bytes(w: World) -> Seq<u8> {
    meta_bytes(w.meta) + le64(w.current_tick.0) + le64(w.sim_time.units) + le64(w.rng_state) + le64(w.next_entity_id)
        + le64(w.entities@.len() as u64) + entities_bytes(w.entities@)
        + le64(w.zones@.len() as u64) + zones_bytes(w.zone_views())
}

fn entity_kind_byte(kind: EntityKind) -> (b: u8)
    ensures
        b == kind_byte(kind),
{
    match kind {
        EntityKind::Resource => 0,
        EntityKind::Creature => 1,
        EntityKind::Item => 2,
        EntityKind::Structure => 3,
    }
}

fn entity_state_byte(state: EntityState) -> (b: u8)
    ensures
        b == state_byte(state),
{
    match state {
        EntityState::Active => 0,
        EntityState::Dormant => 1,
        EntityState::Dead => 2,
    }
}

fn write_u8<H: IStateHasher>(hasher: &mut H, value: u8)
    ensures
        final(hasher).absorbed() == old(hasher).absorbed() + seq![value],
{
    let b = [value];
    hasher.update(&b);
    assert(b@ =~= seq![value]);
}

fn write_u32<H: IStateHasher>(hasher: &mut H, value: u32)
    ensures
        final(hasher).absorbed() == old(hasher).absorbed() + le32(value),
{
    let b = u32_to_le_bytes(value);
    hasher.update(b.as_slice());
}

fn write_i32<H: IStateHasher>(hasher: &mut H, value: i32)
    ensures
        final(hasher).absorbed() == old(hasher).absorbed() + le32(value as u32),
{
    write_u32(hasher, value as u32);
}

fn write_u64<H: IStateHasher>(hasher: &mut H, value: u64)
    ensures
        final(hasher).absorbed() == old(hasher).absorbed() + le64(value),
{
    let b = u64_to_le_bytes(value);
    hasher.update(b.as_slice());
}

fn write_str<H: IStateHasher>(hasher: &mut H, value: &str)
    ensures
        final(hasher).absorbed() == old(hasher).absorbed() + le64((value.spec_bytes().len() as usize) as u64) + value.spec_bytes(),
{
    write_u64(hasher, value.len() as u64);
    hasher.update(value.as_bytes());
    assert(final(hasher).absorbed() =~= old(hasher).absorbed() + le64((value.spec_bytes().len() as usize) as u64) + value.spec_bytes());
}

fn write_opt_str<H: IStateHasher>(hasher: &mut H, value: &Option<String>)
    ensures
        final(hasher).absorbed() == old(hasher).absorbed() + opt_str_bytes(*value),
{
    match value {
        Some(v) => {
            write_u8(hasher, 1);
            write_str(hasher, v.as_str());
            assert(final(hasher).absorbed() =~= old(hasher).absorbed() + opt_str_bytes(*value));
        },
        None => write_u8(hasher, 0),
    }
}

fn write_opt_u32<H: IStateHasher>(hasher: &mut H, value: Option<u32>)
    ensures
        final(hasher).absorbed() == old(hasher).absorbed() + opt_u32_bytes(value),
{
    match value {
        Some(v) => {
            write_u8(hasher, 1);
            write_u32(hasher, v);
            assert(final(hasher).absorbed() =~= old(hasher).absorbed() + opt_u32_bytes(value));
        },
        None => write_u8(hasher, 0),
    }
}

fn write_entity<H: IStateHasher>(hasher: &mut H, entity: &Entity)
    ensures
        final(hasher).absorbed() == old(hasher).absorbed() + entity_bytes(*entity),
{
    write_u64(hasher, entity.id.0);
    write_u64(hasher, entity.id.0);
    write_u8(hasher, entity_kind_byte(entity.kind));
    write_u8(hasher, entity_state_byte(entity.state));
    write_u32(hasher, entity.position.zone.0);
    write_i32(hasher, entity.position.pos.x);
    write_i32(hasher, entity.position.pos.y);
    write_i32(hasher, entity.position.pos.z);
    write_u64(hasher, entity.created_at.0);
    write_opt_str(hasher, &entity.properties.name);
    write_opt_u32(hasher, entity.properties.amount);
    write_opt_u32(hasher, entity.properties.health);
    assert(final(hasher).absorbed() =~= old(hasher).absorbed() + entity_bytes(*entity));
}

fn write_zone<H: IStateHasher>(hasher: &mut H, zone: &crate::world::Zone)
    ensures
        final(hasher).absorbed() == old(hasher).absorbed() + zone_bytes(zone@),
{
    write_u32(hasher, zone.id.0);
    write_u32(hasher, zone.id.0);
    write_opt_str(hasher, &zone.name);
    write_u8(hasher, if zone.loaded { 1u8 } else { 0u8 });
    write_u64(hasher, zone.entities.len() as u64);
    let ghost before = hasher.absorbed();
    let mut i: usize = 0;
    while i < zone.entities.len()
        invariant
            i <= zone.entities@.len(),
            hasher.absorbed() == before + ids_bytes(zone.entities@.take(i as int)),
        decreases zone.entities@.len() - i,
    {
        proof {
            assert(zone.entities@.take(i as int + 1).drop_last() =~= zone.entities@.take(i as int));
        }
        write_u64(hasher, zone.entities[i].0);
        proof {
            assert(hasher.absorbed() =~= before + ids_bytes(zone.entities@.take(i as int + 1)));
        }
        i = i + 1;
    }
    assert(zone.entities@.take(zone.entities@.len() as int) =~= zone.entities@);
    assert(final(hasher).absorbed() =~= old(hasher).absorbed() + zone_bytes(zone@));
}

/// Computes the canonical hash of the complete persistent world state: the
/// hasher's digest of `canonical_bytes(world)`.
pub fn compute_canonical_hash<H: IStateHasher>(world: &World, hasher: &mut H) -> (h: StateHash)
    ensures
        final(hasher).absorbed() == canonical_bytes(*world),
        h.0 == H::digest_of(canonical_bytes(*world)),
{
    hasher.reset();
    write_str(hasher, world.meta.world_id.as_str());
    write_str(hasher, world.meta.name.as_str());
    write_u64(hasher, world.meta.seed.0);
    write_u64(hasher, world.meta.current_tick.0);
    write_u64(hasher, world.meta.sim_time.units);
    write_u64(hasher, world.meta.created_tick.0);
    write_u64(hasher, world.meta.snapshot_tick.0);
    write_u64(hasher, world.meta.last_event_id.0);
    write_u32(hasher, world.meta.format_version);
    assert(hasher.absorbed() =~= meta_bytes(world.meta));

    write_u64(hasher, world.current_tick.0);
    write_u64(hasher, world.sim_time.units);
    write_u64(hasher, world.rng_state);
    write_u64(hasher, world.next_entity_id);

    write_u64(hasher, world.entities.len() as u64);
    let ghost before = hasher.absorbed();
    let mut i: usize = 0;
    while i < world.entities.len()
        invariant
            i <= world.entities@.len(),
            hasher.absorbed() == before + entities_bytes(world.entities@.take(i as int)),
        decreases world.entities@.len() - i,
    {
        proof {
            assert(world.entities@.take(i as int + 1).drop_last() =~= world.entities@.take(i as int));
        }
        write_entity(hasher, &world.entities[i]);
        proof {
            assert(hasher.absorbed() =~= before + entities_bytes(world.entities@.take(i as int + 1)));
        }
        i = i + 1;
    }
    assert(world.entities@.take(world.entities@.len() as int) =~= world.entities@);

    write_u64(hasher, world.zones.len() as u64);
    let ghost before2 = hasher.absorbed();
    let mut j: usize = 0;
    while j < world.zones.len()
        invariant
            j <= world.zones@.len(),
            hasher.absorbed() == before2 + zones_bytes(world.zone_views().take(j as int)),
        decreases world.zones@.len() - j,
    {
        proof {
            assert(world.zone_views().take(j as int + 1).drop_last() =~= world.zone_views().take(j as int));
        }
        write_zone(hasher, &world.zones[j]);
        proof {
            assert(hasher.absorbed() =~= before2 + zones_bytes(world.zone_views().take(j as int + 1)));
        }
        j = j + 1;
    }
    assert(world.zone_views().take(world.zones@.len() as int) =~= world.zone_views());
    assert(hasher.absorbed() =~= canonical_bytes(*world));
    hasher.finalize()
}

/// A state hash taken at a tick.
#[derive(Clone, Copy, Debug, PartialEq, Eq, Structural)]
pub struct Checkpoint {
    pub tick: Tick,
    pub hash: StateHash,
}

/// A command to run once the simulation reaches a tick.
#[derive(Debug)]
pub struct ScheduledCommand {
    pub tick: Tick,
    pub command: SimCommand,
}

impl Clone for ScheduledCommand {
    fn clone(&self) -> (r: Self)
        ensures
            r == *self,
    {
        ScheduledCommand { tick: self.tick, command: self.command.clone() }
    }
}

/// A command scheduled at tick 0.
impl From<SimCommand> for ScheduledCommand {
    fn from(command: SimCommand) -> (r: Self) {
        ScheduledCommand { tick: Tick(0), command }
    }
}

impl vstd::std_specs::convert::FromSpecImpl<SimCommand> for ScheduledCommand {
    open spec fn obeys_from_spec() -> bool {
        true
    }

    open spec fn from_spec(v: SimCommand) -> Self {
        ScheduledCommand { tick: Tick(0), command: v }
    }
}

/// Parameters of a deterministic run.
pub struct DeterministicRunConfig {
    pub seed: RngSeed,
    pub world_name: String,
    pub inputs: Vec<ScheduledCommand>,
    pub total_ticks: u64,
    pub checkpoint_every: u64,
}

/// Checkpoints of a deterministic run and its final tick.
pub struct DeterministicRunResult {
    pub checkpoints: Vec<Checkpoint>,
    pub final_tick: Tick,
}

pub open spec fn min_tick(a: Tick, b: Tick) -> Tick {
    if a.0 <= b.0 {
        a
    } else {
        b
    }
}

/// The first disagreement between two checkpoint lists from position `i` on.
pub open spec fn first_mismatch(a: Seq<Checkpoint>, b: Seq<Checkpoint>, i: int) -> Result<(), Tick>
    decreases a.len() - i,
{
    if i < 0 || i >= a.len() || i >= b.len() {
        Ok(())
    } else if a[i].tick != b[i].tick {
        Err(min_tick(a[i].tick, b[i].tick))
    } else if a[i].hash != b[i].hash {
        Err(a[i].tick)
    } else {
        first_mismatch(a, b, i + 1)
    }
}

/// Two runs agree when they have the same number of checkpoints and every
/// checkpoint matches; otherwise the tick of the first disagreement (tick 0
/// when the lengths differ).
pub open spec fn spec_verify_determinism(a: Seq<Checkpoint>, b: Seq<Checkpoint>) -> Result<(), Tick> {
    if a.len() != b.len() {
        Err(Tick(0))
    } else {
        first_mismatch(a, b, 0)
    }
}

/// Compares two run results for determinism.
pub fn verify_determinism(run_a: &DeterministicRunResult, run_b: &DeterministicRunResult) -> (r: Result<(), Tick>)
    ensures
        r == spec_verify_determinism(run_a.checkpoints@, run_b.checkpoints@),
{
    if run_a.checkpoints.len() != run_b.checkpoints.len() {
        return Err(Tick(0));
    }
    let ghost a = run_a.checkpoints@;
    let ghost b = run_b.checkpoints@;
    let mut i: usize = 0;
    while i < run_a.checkpoints.len()
        invariant
            a == run_a.checkpoints@,
            b == run_b.checkpoints@,
            a.len() == b.len(),
            i <= a.len(),
            first_mismatch(a, b, 0) == first_mismatch(a, b, i as int),
        decreases a.len() - i,
    {
        let ca = run_a.checkpoints[i];
        let cb = run_b.checkpoints[i];
        if ca.tick != cb.tick {
            return Err(if ca.tick.0 <= cb.tick.0 { ca.tick } else { cb.tick });
        }
        if ca.hash != cb.hash {
            return Err(ca.tick);
        }
        i = i + 1;
    }
    Ok(())
}

/// Whether a checkpoint is taken after tick number `n` (counting from 0):
/// every `every` ticks (when `every` is positive) and after the last tick.
pub open spec fn is_checkpoint_step(n: int, total: u64, every: u64) -> bool {
    (every > 0 && (n + 1) % (every as int) == 0) || n + 1 == total
}

/// How many checkpoints the first `upto` ticks of a run take.
pub open spec fn checkpoint_count(total: u64, every: u64, upto: nat) -> nat
    decreases upto,
{
    if upto == 0 {
        0
    } else {
        checkpoint_count(total, every, (upto - 1) as nat) + if is_checkpoint_step(upto - 1, total, every) {
            1nat
        } else {
            0nat
        }
    }
}

/// The loaded world's tick, or 0.
pub open spec fn sim_tick(s: crate::sim::SimState) -> Tick {
    match s.world {
        Some(w) => w.current_tick,
        None => Tick(0),
    }
}

/// The creation command of a run.
pub open spec fn run_creation(config: DeterministicRunConfig) -> SimCommand {
    SimCommand::CreateWorld(CreateWorldCmd { name: config.world_name, seed: config.seed })
}

/// Runs a fresh simulation: creates the world, then for each of
/// `total_ticks` ticks applies the scheduled commands due (sorted by tick,
/// stable) and one `Tick`, taking a checkpoint (tick and canonical hash)
/// every `checkpoint_every` ticks and after the last one.
///
/// A command that fails ends the run with its error. The outcome is a
/// function of the configuration alone (`spec_run`): the same configuration
/// gives the same checkpoints and final tick.
pub fn run_deterministic<R: IRng, C: ISimClock, H: IStateHasher>(
    config: &DeterministicRunConfig,
    rng: R,
    clock: C,
    hasher: &mut H,
) -> (r: Result<DeterministicRunResult, ApiError>)
    ensures
        command_errors(run_creation(*config)).len() > 0 ==> (r matches Err(ApiError::ValidationFailed(errs))
            && errs@ == command_errors(run_creation(*config))),
        r matches Ok(res) ==> spec_run::<R, H>(*config) == Some((res.checkpoints@, res.final_tick)),
        r is Err ==> spec_run::<R, H>(*config) is None,
        r matches Ok(res) ==> {
            &&& res.checkpoints@.len() == checkpoint_count(config.total_ticks, config.checkpoint_every, config.total_ticks as nat)
            &&& config.total_ticks > 0 ==> res.final_tick == res.checkpoints@.last().tick
            &&& config.total_ticks == 0 ==> res.final_tick.0 == 0
        },
{
    let mut sim = Simulation::new(rng, clock);
    let create = SimCommand::CreateWorld(CreateWorldCmd { name: config.world_name.clone(), seed: config.seed });
    let ghost s0 = SimState { world: None, seed: RngSeed(0), rng: 0, clock: Tick(0) };
    let ghost before = sim.state();
    match sim.process_command(create) {
        Ok(_) => {},
        Err(e) => {
            return Err(e);
        },
    }
    let ghost s1 = spec_step::<R>(s0, run_creation(*config))->Some_0;
    proof {
        lemma_spec_create::<R>(before, s0, run_creation(*config), sim.state());
    }
    let inputs = sorted_inputs(&config.inputs);
    let mut input_idx: usize = 0;
    let mut checkpoints: Vec<Checkpoint> = Vec::new();
    let mut tick_num: u64 = 0;
    let ghost mut sp = s1;
    while tick_num < config.total_ticks
        invariant
            sim.wf(),
            sim.state().world is Some,
            inputs@ == sort_by_tick(config.inputs@),
            spec_step::<R>(s0, run_creation(*config)) == Some(s1),
            spec_loop::<R, H>(*config, s1, tick_num as nat) == Some((sp, input_idx as nat, checkpoints@)),
            crate::equivalence::state_eqv(sim.state(), sp),
            tick_num <= config.total_ticks,
            input_idx <= inputs@.len(),
            checkpoints@.len() == checkpoint_count(config.total_ticks, config.checkpoint_every, tick_num as nat),
            tick_num == config.total_ticks && tick_num > 0 ==> checkpoints@.len() > 0
                && checkpoints@.last().tick == sim_tick(sim.state()),
            tick_num == 0 ==> sim_tick(sim.state()).0 == 0,
            command_errors(run_creation(*config)).len() == 0,
        decreases config.total_ticks - tick_num,
    {
        let ghost sp_start = sp;
        let ghost idx_start = input_idx as nat;
        while input_idx < inputs.len() && inputs[input_idx].tick.0 <= tick_num
            invariant
                sim.wf(),
                sim.state().world is Some,
                inputs@ == sort_by_tick(config.inputs@),
                spec_step::<R>(s0, run_creation(*config)) == Some(s1),
                spec_loop::<R, H>(*config, s1, tick_num as nat) == Some((sp_start, idx_start, checkpoints@)),
                spec_due::<R>(sp_start, inputs@, idx_start, tick_num) == spec_due::<R>(sp, inputs@, input_idx as nat, tick_num),
                crate::equivalence::state_eqv(sim.state(), sp),
                tick_num < config.total_ticks,
                input_idx <= inputs@.len(),
                command_errors(run_creation(*config)).len() == 0,
            decreases inputs@.len() - input_idx,
        {
            let cmd = inputs[input_idx].command.clone();
            let ghost old_state = sim.state();
            if !sim.fits_limits(&cmd) {
                proof {
                    lemma_spec_step_err::<R>(old_state, sp, cmd, ApiError::LimitReached);
                    lemma_spec_loop_none::<R, H>(*config, s1, tick_num as nat + 1, config.total_ticks as nat);
                }
                return Err(ApiError::LimitReached);
            }
            match sim.process_command(cmd) {
                Ok(evs) => {
                    proof {
                        lemma_spec_step_ok::<R>(old_state, sp, cmd, sim.state(), evs@);
                        sp = spec_step::<R>(sp, cmd)->Some_0;
                    }
                },
                Err(e) => {
                    proof {
                        lemma_spec_step_err::<R>(old_state, sp, cmd, e);
                        lemma_spec_loop_none::<R, H>(*config, s1, tick_num as nat + 1, config.total_ticks as nat);
                    }
                    return Err(e);
                },
            }
            input_idx = input_idx + 1;
        }
        let ghost old_state = sim.state();
        if !sim.fits_limits(&SimCommand::Tick) {
            proof {
                lemma_spec_step_err::<R>(old_state, sp, SimCommand::Tick, ApiError::LimitReached);
                lemma_spec_loop_none::<R, H>(*config, s1, tick_num as nat + 1, config.total_ticks as nat);
            }
            return Err(ApiError::LimitReached);
        }
        match sim.process_command(SimCommand::Tick) {
            Ok(evs) => {
                proof {
                    lemma_spec_step_ok::<R>(old_state, sp, SimCommand::Tick, sim.state(), evs@);
                    sp = spec_step::<R>(sp, SimCommand::Tick)->Some_0;
                }
            },
            Err(e) => {
                proof {
                    lemma_spec_step_err::<R>(old_state, sp, SimCommand::Tick, e);
                    lemma_spec_loop_none::<R, H>(*config, s1, tick_num as nat + 1, config.total_ticks as nat);
                }
                return Err(e);
            },
        }
        let should_checkpoint = config.checkpoint_every > 0 && (tick_num + 1) % config.checkpoint_every == 0;
        if should_checkpoint || tick_num + 1 == config.total_ticks {
            match sim.world() {
                Some(world) => {
                    let hash = compute_canonical_hash(world, hasher);
                    proof {
                        lemma_canonical_is_view_bytes(*world);
                        lemma_view_bytes_eqv(world@, sp.world->Some_0);
                    }
                    checkpoints.push(Checkpoint { tick: world.current_tick, hash });
                },
                None => {},
            }
        }
        tick_num = tick_num + 1;
    }
    let final_tick = sim.current_tick();
    Ok(DeterministicRunResult { checkpoints, final_tick })
}

/// A run's creation, judged on states, gives a state that agrees with the
/// simulation's up to text.
proof fn lemma_spec_create<R: IRng>(before: SimState, s0: SimState, cmd: SimCommand, after: SimState)
    requires
        before.world is None,
        s0.world is None,
        cmd is CreateWorld,
        command_errors(cmd).len() == 0,
        exists|evs: Seq<SimEvent>| crate::sim::step_ok::<R>(before, cmd, after, evs),
    ensures
        spec_step::<R>(s0, cmd) matches Some(x) && crate::equivalence::state_eqv(after, x),
{
    let c = cmd->CreateWorld_0;
    let v = after.world->Some_0;
    assert(created_world(v, c));
    let w = choose|w: WorldView| created_world(w, c);
    crate::equivalence::lemma_created_eqv(v, w, c);
}

/// A command that the simulation applies is applied alike, judged on states.
proof fn lemma_spec_step_ok<R: IRng>(old: SimState, sp: SimState, cmd: SimCommand, new: SimState, evs: Seq<SimEvent>)
    requires
        crate::equivalence::state_eqv(old, sp),
        old.world is Some,
        command_errors(cmd).len() == 0,
        view_within_limits(old, cmd),
        crate::sim::step_ok::<R>(old, cmd, new, evs),
    ensures
        spec_step::<R>(sp, cmd) matches Some(x) && crate::equivalence::state_eqv(new, x),
{
    crate::equivalence::lemma_eqv_command::<R>(old, sp, cmd);
}

/// A command that the simulation refuses is refused alike, judged on states.
proof fn lemma_spec_step_err<R: IRng>(old: SimState, sp: SimState, cmd: SimCommand, e: ApiError)
    requires
        crate::equivalence::state_eqv(old, sp),
        old.world is Some,
        command_errors(cmd).len() > 0 || !view_within_limits(old, cmd) || crate::sim::step_err::<R>(old, cmd, e),
    ensures
        spec_step::<R>(sp, cmd) is None,
{
    if !(cmd is CreateWorld) {
        crate::equivalence::lemma_eqv_command::<R>(old, sp, cmd);
    }
}

/// Where `t` goes in a tick-sorted list: after every entry with tick <= t.
pub open spec fn upper_bound(s: Seq<ScheduledCommand>, t: u64) -> int
    decreases s.len(),
{
    if s.len() == 0 {
        0
    } else if s[0].tick.0 > t {
        0
    } else {
        1 + upper_bound(s.drop_first(), t)
    }
}

/// Stable sort by tick: entries with equal ticks keep their order.
pub open spec fn sort_by_tick(s: Seq<ScheduledCommand>) -> Seq<ScheduledCommand>
    decreases s.len(),
{
    if s.len() == 0 {
        s
    } else {
        let r = sort_by_tick(s.drop_last());
        r.insert(upper_bound(r, s.last().tick.0), s.last())
    }
}

proof fn lemma_upper_bound_range(s: Seq<ScheduledCommand>, t: u64)
    ensures
        0 <= upper_bound(s, t) <= s.len(),
    decreases s.len(),
{
    if s.len() > 0 {
        lemma_upper_bound_range(s.drop_first(), t);
    }
}

proof fn lemma_sort_len(s: Seq<ScheduledCommand>)
    ensures
        sort_by_tick(s).len() == s.len(),
    decreases s.len(),
{
    if s.len() > 0 {
        lemma_sort_len(s.drop_last());
        lemma_upper_bound_range(sort_by_tick(s.drop_last()), s.last().tick.0);
    }
}

fn find_upper_bound(v: &Vec<ScheduledCommand>, t: u64) -> (p: usize)
    ensures
        p as int == upper_bound(v@, t),
{
    let mut i: usize = 0;
    proof {
        lemma_upper_bound_range(v@, t);
        assert(v@.skip(0) =~= v@);
    }
    while i < v.len() && v[i].tick.0 <= t
        invariant
            i <= v@.len(),
            upper_bound(v@, t) == i + upper_bound(v@.skip(i as int), t),
        decreases v@.len() - i,
    {
        proof {
            assert(v@.skip(i as int).drop_first() =~= v@.skip(i as int + 1));
        }
        i = i + 1;
    }
    proof {
        if i < v@.len() {
            assert(v@.skip(i as int)[0] == v@[i as int]);
        }
    }
    i
}

/// Sorts scheduled commands by tick, keeping the order of equal ticks.
fn sorted_inputs(inputs: &Vec<ScheduledCommand>) -> (r: Vec<ScheduledCommand>)
    ensures
        r@ == sort_by_tick(inputs@),
{
    let mut r: Vec<ScheduledCommand> = Vec::new();
    let mut i: usize = 0;
    while i < inputs.len()
        invariant
            i <= inputs@.len(),
            r@ == sort_by_tick(inputs@.take(i as int)),
        decreases inputs@.len() - i,
    {
        proof {
            assert(inputs@.take(i as int + 1).drop_last() =~= inputs@.take(i as int));
            lemma_upper_bound_range(r@, inputs@[i as int].tick.0);
        }
        let x = inputs[i].clone();
        let p = find_upper_bound(&r, x.tick.0);
        r.insert(p, x);
        i = i + 1;
    }
    assert(inputs@.take(inputs@.len() as int) =~= inputs@);
    r
}

/// The canonical encoding, hence the state hash, depends only on the state:
/// two well-formed worlds with the same abstract state encode to the same
/// bytes.
pub proof fn law_canonical_bytes_depend_only_on_state(w1: World, w2: World)
    requires
        w1.wf(),
        w2.wf(),
        w1@ == w2@,
    ensures
        canonical_bytes(w1) == canonical_bytes(w2),
{
    crate::keyed::lemma_keyed_determined(w1.entities@, w2.entities@);
    crate::keyed::lemma_keyed_determined(w1.zone_views(), w2.zone_views());
    assert(w1.zones@.len() == w1.zone_views().len());
    assert(w2.zones@.len() == w2.zone_views().len());
}

/// The entities of a state in ascending id order.
pub open spec fn sorted_entities(v: WorldView) -> Seq<Entity> {
    sorted_keys(v.entities).map_values(|k: int| v.entities[k])
}

/// The zones of a state in ascending id order.
pub open spec fn sorted_zones(v: WorldView) -> Seq<ZoneView> {
    sorted_keys(v.zones).map_values(|k: int| v.zones[k])
}

/// The canonical encoding of a state.
pub open spec fn view_bytes(v: WorldView) -> Seq<u8> {
    meta_bytes(v.meta) + le64(v.current_tick.0) + le64(v.sim_time.units) + le64(v.rng_state) + le64(v.next_entity_id)
        + le64(sorted_entities(v).len() as u64) + entities_bytes(sorted_entities(v))
        + le64(sorted_zones(v).len() as u64) + zones_bytes(sorted_zones(v))
}

/// A map whose keys can be listed in ascending order.
pub open spec fn keys_listable<V>(m: Map<int, V>) -> bool {
    &&& increasing(sorted_keys(m))
    &&& forall|k: int| #[trigger] sorted_keys(m).contains(k) <==> m.dom().contains(k)
}

/// The canonical bytes of a well-formed world are the canonical encoding of
/// its state.
pub proof fn lemma_canonical_is_view_bytes(w: World)
    requires
        w.wf(),
    ensures
        canonical_bytes(w) == view_bytes(w@),
        keys_listable(w@.entities),
        keys_listable(w@.zones),
{
    lemma_sorted_keys(w.entities@);
    lemma_sorted_keys(w.zone_views());
    assert(sorted_entities(w@) =~= w.entities@) by {
        assert forall|i: int| 0 <= i < w.entities@.len() implies sorted_entities(w@)[i] == w.entities@[i] by {
            lemma_keyed_index(w.entities@, i);
        }
    }
    assert(sorted_zones(w@) =~= w.zone_views()) by {
        assert forall|i: int| 0 <= i < w.zone_views().len() implies sorted_zones(w@)[i] == w.zone_views()[i] by {
            lemma_keyed_index(w.zone_views(), i);
        }
    }
    assert(w.zones@.len() == w.zone_views().len());
    assert(increasing(key_seq(w.entities@)));
    assert(increasing(key_seq(w.zone_views())));
}

proof fn lemma_zones_bytes_eqv(a: Seq<ZoneView>, b: Seq<ZoneView>)
    requires
        a.len() == b.len(),
        forall|i: int| 0 <= i < a.len() ==> crate::equivalence::zone_eqv(#[trigger] a[i], b[i]),
    ensures
        zones_bytes(a) == zones_bytes(b),
    decreases a.len(),
{
    if a.len() > 0 {
        lemma_zones_bytes_eqv(a.drop_last(), b.drop_last());
        let x = a.last();
        let y = b.last();
        assert(crate::equivalence::zone_eqv(x, y));
        assert(opt_str_bytes(x.name) == opt_str_bytes(y.name));
    }
}

/// States that agree up to the identity of their strings have the same
/// canonical encoding.
pub proof fn lemma_view_bytes_eqv(a: WorldView, b: WorldView)
    requires
        crate::equivalence::world_eqv(a, b),
        keys_listable(a.zones),
    ensures
        view_bytes(a) == view_bytes(b),
{
    assert(meta_bytes(a.meta) == meta_bytes(b.meta));
    let ka = sorted_keys(a.zones);
    assert(increasing(ka) && (forall|k: int| #[trigger] ka.contains(k) <==> b.zones.dom().contains(k)));
    let kb = sorted_keys(b.zones);
    assert(increasing(kb) && (forall|k: int| #[trigger] kb.contains(k) <==> b.zones.dom().contains(k)));
    lemma_increasing_unique(ka, kb);
    assert forall|i: int| 0 <= i < sorted_zones(a).len() implies crate::equivalence::zone_eqv(
        #[trigger] sorted_zones(a)[i],
        sorted_zones(b)[i],
    ) by {
        assert(ka.contains(ka[i]));
        assert(a.zones.contains_key(ka[i]));
    }
    lemma_zones_bytes_eqv(sorted_zones(a), sorted_zones(b));
}

/// The state after a command, judged on states: `None` when the command is
/// refused (validation, the machine's counters, or the command itself). A
/// created world is one that satisfies `created_world`; all of them agree up
/// to the identity of their strings.
pub open spec fn spec_step<R: IRng>(s: SimState, cmd: SimCommand) -> Option<SimState> {
    if command_errors(cmd).len() > 0 || !view_within_limits(s, cmd) {
        None
    } else {
        match cmd {
            SimCommand::CreateWorld(c) => match s.world {
                Some(_) => None,
                None => Some(
                    SimState {
                        world: Some(choose|v: WorldView| created_world(v, c)),
                        seed: c.seed,
                        rng: c.seed.0,
                        clock: Tick(0),
                    },
                ),
            },
            _ => match s.world {
                Some(w) => match spec_world_command::<R>(s, w, cmd) {
                    Ok((s2, _)) => Some(s2),
                    Err(_) => None,
                },
                None => None,
            },
        }
    }
}

/// Applying the scheduled commands due at tick `t`, from position `idx` of
/// the tick-sorted list: the state and the position after them.
pub open spec fn spec_due<R: IRng>(s: SimState, inputs: Seq<ScheduledCommand>, idx: nat, t: u64) -> Option<(SimState, nat)>
    decreases inputs.len() - idx,
{
    if idx < inputs.len() && inputs[idx as int].tick.0 <= t {
        match spec_step::<R>(s, inputs[idx as int].command) {
            Some(s2) => spec_due::<R>(s2, inputs, idx + 1, t),
            None => None,
        }
    } else {
        Some((s, idx))
    }
}

/// The first `n` ticks of a run after the world's creation: the state, the
/// position in the sorted inputs, and the checkpoints taken.
pub open spec fn spec_loop<R: IRng, H: IStateHasher>(config: DeterministicRunConfig, s: SimState, n: nat) -> Option<
    (SimState, nat, Seq<Checkpoint>),
>
    decreases n,
{
    if n == 0 {
        Some((s, 0, seq![]))
    } else {
        match spec_loop::<R, H>(config, s, (n - 1) as nat) {
            None => None,
            Some((s1, idx, cps)) => match spec_due::<R>(s1, sort_by_tick(config.inputs@), idx, (n - 1) as u64) {
                None => None,
                Some((s2, idx2)) => match spec_step::<R>(s2, SimCommand::Tick) {
                    None => None,
                    Some(s3) => Some(
                        (
                            s3,
                            idx2,
                            if is_checkpoint_step(n - 1, config.total_ticks, config.checkpoint_every) {
                                cps.push(
                                    Checkpoint {
                                        tick: sim_tick(s3),
                                        hash: StateHash(H::digest_of(view_bytes(s3.world->Some_0))),
                                    },
                                )
                            } else {
                                cps
                            },
                        ),
                    ),
                },
            },
        }
    }
}

/// The outcome of a deterministic run, as a function of its configuration:
/// the checkpoints and the final tick, or `None` when a command is refused.
pub open spec fn spec_run<R: IRng, H: IStateHasher>(config: DeterministicRunConfig) -> Option<(Seq<Checkpoint>, Tick)> {
    let s0 = SimState { world: None, seed: RngSeed(0), rng: 0, clock: Tick(0) };
    match spec_step::<R>(s0, run_creation(config)) {
        None => None,
        Some(s1) => match spec_loop::<R, H>(config, s1, config.total_ticks as nat) {
            None => None,
            Some((s, _, cps)) => Some((cps, sim_tick(s))),
        },
    }
}

proof fn lemma_spec_loop_none<R: IRng, H: IStateHasher>(config: DeterministicRunConfig, s: SimState, n: nat, m: nat)
    requires
        n <= m,
        spec_loop::<R, H>(config, s, n) is None,
    ensures
        spec_loop::<R, H>(config, s, m) is None,
    decreases m - n,
{
    if n < m {
        lemma_spec_loop_none::<R, H>(config, s, n + 1, m);
    }
}

proof fn lemma_no_mismatch_with_itself(a: Seq<Checkpoint>, i: int)
    requires
        0 <= i,
    ensures
        first_mismatch(a, a, i) == Ok::<(), Tick>(()),
    decreases a.len() - i,
{
    if i < a.len() {
        lemma_no_mismatch_with_itself(a, i + 1);
    }
}

/// Same genesis and same inputs give the same run: two successful runs of
/// one configuration (each described by `spec_run`, as `run_deterministic`
/// ensures) have the same checkpoints and final tick, so comparing them finds
/// no divergence.
pub proof fn law_runs_are_deterministic<R: IRng, H: IStateHasher>(
    config: DeterministicRunConfig,
    a: DeterministicRunResult,
    b: DeterministicRunResult,
)
    requires
        spec_run::<R, H>(config) == Some((a.checkpoints@, a.final_tick)),
        spec_run::<R, H>(config) == Some((b.checkpoints@, b.final_tick)),
    ensures
        a.checkpoints@ == b.checkpoints@,
        a.final_tick == b.final_tick,
        spec_verify_determinism(a.checkpoints@, b.checkpoints@) == Ok::<(), Tick>(()),
{
    lemma_no_mismatch_with_itself(a.checkpoints@, 0);
}

proof fn lemma_first_mismatch_skips(a: Seq<Checkpoint>, b: Seq<Checkpoint>, i: int, k: int)
    requires
        0 <= k <= i <= a.len(),
        a.len() == b.len(),
        forall|j: int| k <= j < i ==> a[j] == b[j],
    ensures
        first_mismatch(a, b, k) == first_mismatch(a, b, i),
    decreases i - k,
{
    if k < i {
        lemma_first_mismatch_skips(a, b, i, k + 1);
    }
}

/// Two runs whose checkpoints fall on the same ticks are reported divergent
/// at the tick of the first checkpoint whose hashes differ.
pub proof fn law_first_divergence_reported(a: Seq<Checkpoint>, b: Seq<Checkpoint>, i: int)
    requires
        a.len() == b.len(),
        0 <= i < a.len(),
        forall|j: int| 0 <= j < a.len() ==> (#[trigger] a[j]).tick == b[j].tick,
        forall|j: int| 0 <= j < i ==> (#[trigger] a[j]).hash == b[j].hash,
        a[i].hash != b[i].hash,
    ensures
        spec_verify_determinism(a, b) == Err::<(), Tick>(a[i].tick),
{
    assert forall|j: int| 0 <= j < i implies a[j] == b[j] by {
        assert(a[j].tick == b[j].tick);
        assert(a[j].hash == b[j].hash);
    }
    lemma_first_mismatch_skips(a, b, i, 0);
}

proof fn lemma_no_mismatch_from(a: Seq<Checkpoint>, b: Seq<Checkpoint>, i: int)
    requires
        a.len() == b.len(),
        0 <= i <= a.len(),
        first_mismatch(a, b, i) is Ok,
    ensures
        forall|j: int| i <= j < a.len() ==> a[j] == b[j],
    decreases a.len() - i,
{
    if i < a.len() {
        lemma_no_mismatch_from(a, b, i + 1);
    }
}

/// Two runs agree exactly when their checkpoint lists are equal.
pub proof fn law_agreement_is_equality(a: Seq<Checkpoint>, b: Seq<Checkpoint>)
    ensures
        spec_verify_determinism(a, b) is Ok <==> a == b,
{
    if a.len() == b.len() {
        if first_mismatch(a, b, 0) is Ok {
            lemma_no_mismatch_from(a, b, 0);
            assert(a =~= b);
        }
        if a == b {
            lemma_first_mismatch_skips(a, b, a.len() as int, 0);
        }
    }
}

/// Two runs are compared checkpoint by checkpoint: at the first checkpoint
/// where they differ, the result is the earlier of the two ticks when the
/// ticks differ, and that tick when only the hashes differ. Runs with
/// different numbers of checkpoints diverge at tick 0.
pub proof fn law_first_difference_reported(a: Seq<Checkpoint>, b: Seq<Checkpoint>, i: int)
    requires
        0 <= i < a.len(),
        forall|j: int| 0 <= j < i ==> (#[trigger] a[j]) == b[j],
        a.len() == b.len() ==> a[i] != b[i],
    ensures
        a.len() != b.len() ==> spec_verify_determinism(a, b) == Err::<(), Tick>(Tick(0)),
        a.len() == b.len() ==> spec_verify_determinism(a, b) == Err::<(), Tick>(
            if a[i].tick != b[i].tick {
                if a[i].tick.0 <= b[i].tick.0 {
                    a[i].tick
                } else {
                    b[i].tick
                }
            } else {
                a[i].tick
            },
        ),
{
    if a.len() == b.len() {
        lemma_first_mismatch_skips(a, b, i, 0);
    }
}

} // verus!
