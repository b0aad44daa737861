//! Persistent runtime: commits events to the log before accepting a state,
//! saves snapshots, and recovers a world from its snapshot and log.
use vstd::prelude::*;

use crate::commands::SimCommand;
use crate::errors::{ApiError, Corruption, SimError};
use crate::events::SimEvent;
use crate::persistence::{IEventLog, IWorldStore, WorldStorageStatus};
use crate::replay::{apply_event, replayable, spec_replay, ReplayError};
use crate::sim::{step_err, step_ok, IRng, ISimClock, SimState, Simulation};
use crate::snapshot::{check_snapshot_order, snapshot_view, spec_order_check, spec_validate_snapshot, validate_snapshot, WorldSnapshot};
use crate::text::world_id_for_seed;
use crate::types::{EventId, Tick};
use crate::validation::{command_errors, validate_world_id_result, world_id_errors};
use crate::wal::events_after;
use crate::world::{World, WorldMeta, WorldView};
use vstd::string::StringSliceAdditionalSpecFns;

verus! {

/// Two metadata records hold the same values.
pub open spec fn meta_same(a: WorldMeta, b: WorldMeta) -> bool {
    &&& a.world_id@ == b.world_id@
    &&& a.name@ == b.name@
    &&& a.seed == b.seed
    &&& a.current_tick == b.current_tick
    &&& a.sim_time == b.sim_time
    &&& a.created_tick == b.created_tick
    &&& a.snapshot_tick == b.snapshot_tick
    &&& a.last_event_id == b.last_event_id
    &&& a.format_version == b.format_version
}

/// A metadata file left behind by a save that wrote the snapshot but was
/// interrupted before the metadata: same world, strictly older cursor, and
/// no clock ahead of the snapshot's.
pub open spec fn stale_meta(snapshot_meta: WorldMeta, file_meta: WorldMeta) -> bool {
    &&& snapshot_meta.world_id@ == file_meta.world_id@
    &&& snapshot_meta.seed == file_meta.seed
    &&& snapshot_meta.format_version == file_meta.format_version
    &&& snapshot_meta.created_tick == file_meta.created_tick
    &&& file_meta.last_event_id.0 < snapshot_meta.last_event_id.0
    &&& file_meta.snapshot_tick.0 <= snapshot_meta.snapshot_tick.0
    &&& file_meta.current_tick.0 <= snapshot_meta.current_tick.0
    &&& file_meta.sim_time.units <= snapshot_meta.sim_time.units
}

fn metas_equal(a: &WorldMeta, b: &WorldMeta) -> (r: bool)
    ensures
        r == meta_same(*a, *b),
{
    a.world_id == b.world_id && a.name == b.name && a.seed == b.seed && a.current_tick == b.current_tick
        && a.sim_time == b.sim_time && a.created_tick == b.created_tick && a.snapshot_tick == b.snapshot_tick
        && a.last_event_id == b.last_event_id && a.format_version == b.format_version
}

/// Whether the metadata file is the stale leftover of an interrupted save.
pub fn is_stale_meta_from_interrupted_save(snapshot_meta: &WorldMeta, file_meta: &WorldMeta) -> (r: bool)
    ensures
        r == stale_meta(*snapshot_meta, *file_meta),
{
    snapshot_meta.world_id == file_meta.world_id && snapshot_meta.seed == file_meta.seed
        && snapshot_meta.format_version == file_meta.format_version
        && snapshot_meta.created_tick == file_meta.created_tick
        && file_meta.last_event_id.0 < snapshot_meta.last_event_id.0
        && file_meta.snapshot_tick.0 <= snapshot_meta.snapshot_tick.0
        && file_meta.current_tick.0 <= snapshot_meta.current_tick.0
        && file_meta.sim_time.units <= snapshot_meta.sim_time.units
}

/// The snapshot must be of the requested world.
pub fn validate_snapshot_world_id(world: &World, requested_world_id: &str) -> (r: Result<(), SimError>)
    ensures
        r is Ok <==> world.meta.world_id@ == requested_world_id@,
        r matches Err(e) ==> e matches SimError::CorruptedState(Corruption::WorldIdMismatch { requested, snapshot })
            && requested@ == requested_world_id@ && snapshot@ == world.meta.world_id@,
{
    let requested = requested_world_id.to_owned();
    if world.meta.world_id != requested {
        return Err(
            SimError::CorruptedState(Corruption::WorldIdMismatch { requested, snapshot: world.meta.world_id.clone() }),
        );
    }
    Ok(())
}

/// The metadata file must equal the snapshot's metadata.
pub fn validate_meta_mirror(snapshot_meta: &WorldMeta, file_meta: &WorldMeta) -> (r: Result<(), SimError>)
    ensures
        r is Ok <==> meta_same(*snapshot_meta, *file_meta),
        r is Err ==> r == Err::<(), SimError>(SimError::CorruptedState(Corruption::MetaMismatch)),
{
    if !metas_equal(snapshot_meta, file_meta) {
        return Err(SimError::CorruptedState(Corruption::MetaMismatch));
    }
    Ok(())
}

/// During recovery the metadata file may also be the stale leftover of an
/// interrupted save.
pub fn validate_recovered_meta_mirror(snapshot_meta: &WorldMeta, file_meta: &WorldMeta) -> (r: Result<(), SimError>)
    ensures
        r is Ok <==> meta_same(*snapshot_meta, *file_meta) || stale_meta(*snapshot_meta, *file_meta),
        r is Err ==> r == Err::<(), SimError>(SimError::CorruptedState(Corruption::MetaMismatch)),
{
    if metas_equal(snapshot_meta, file_meta) {
        return Ok(());
    }
    if is_stale_meta_from_interrupted_save(snapshot_meta, file_meta) {
        return Ok(());
    }
    Err(SimError::CorruptedState(Corruption::MetaMismatch))
}

/// A missing metadata file is reported as `NotFound`.
pub fn is_missing_meta_error(err: &SimError) -> (r: bool)
    ensures
        r == (*err is NotFound),
{
    match err {
        SimError::NotFound(_) => true,
        _ => false,
    }
}

/// The log must reach at least the snapshot's cursor.
pub fn validate_wal_covers_snapshot(snapshot_last_event_id: EventId, wal_last_event_id: EventId) -> (r: Result<(), SimError>)
    ensures
        r is Ok <==> wal_last_event_id.0 >= snapshot_last_event_id.0,
        r is Err ==> r == Err::<(), SimError>(
            SimError::CorruptedState(
                Corruption::WalBehindSnapshot { wal_last_event_id, snapshot_last_event_id },
            ),
        ),
{
    if wal_last_event_id.0 < snapshot_last_event_id.0 {
        return Err(
            SimError::CorruptedState(Corruption::WalBehindSnapshot { wal_last_event_id, snapshot_last_event_id }),
        );
    }
    Ok(())
}

/// The log's announced cursor must be its durable tail.
pub fn validate_wal_cursor_matches_durable_tail(announced_wal_last_event_id: EventId, durable_wal_last_event_id: EventId) -> (r:
    Result<(), SimError>)
    ensures
        r is Ok <==> announced_wal_last_event_id == durable_wal_last_event_id,
        r is Err ==> r == Err::<(), SimError>(
            SimError::CorruptedState(
                Corruption::WalCursorMismatch { announced: announced_wal_last_event_id, durable: durable_wal_last_event_id },
            ),
        ),
{
    if announced_wal_last_event_id != durable_wal_last_event_id {
        return Err(
            SimError::CorruptedState(
                Corruption::WalCursorMismatch { announced: announced_wal_last_event_id, durable: durable_wal_last_event_id },
            ),
        );
    }
    Ok(())
}

/// The next id, saturating at the largest `u64`.
pub open spec fn next_id(x: u64) -> u64 {
    if x == u64::MAX {
        x
    } else {
        (x + 1) as u64
    }
}

/// The first event, from position `i` on, whose id is not `expected`
/// (counting up from there).
pub open spec fn contiguity_error(evs: Seq<SimEvent>, i: int, expected: u64) -> Option<Corruption>
    decreases evs.len() - i,
{
    if i < 0 || i >= evs.len() {
        None
    } else if evs[i].event_id.0 != expected {
        Some(Corruption::WalNotContiguous { expected: EventId(expected), found: evs[i].event_id })
    } else {
        contiguity_error(evs, i + 1, next_id(expected))
    }
}

/// The log's events must be numbered 1, 2, 3, ... without gaps.
pub fn validate_wal_prefix_is_contiguous(events: &[SimEvent]) -> (r: Result<(), SimError>)
    ensures
        match contiguity_error(events@, 0, 1) {
            Some(c) => r == Err::<(), SimError>(SimError::CorruptedState(c)),
            None => r is Ok,
        },
{
    let mut expected: u64 = 1;
    let mut i: usize = 0;
    while i < events.len()
        invariant
            i <= events@.len(),
            contiguity_error(events@, 0, 1) == contiguity_error(events@, i as int, expected),
        decreases events@.len() - i,
    {
        if events[i].event_id.0 != expected {
            return Err(
                SimError::CorruptedState(Corruption::WalNotContiguous { expected: EventId(expected), found: events[i].event_id }),
            );
        }
        expected = if expected == u64::MAX { expected } else { expected + 1 };
        i = i + 1;
    }
    Ok(())
}

/// The first problem with the events to replay, from position `i` on: an id
/// other than the expected one, or, at the end, a range that stops before the
/// log's last event.
pub open spec fn replay_range_error(wal_last: u64, evs: Seq<SimEvent>, i: int, expected: u64) -> Option<Corruption>
    decreases evs.len() - i,
{
    if i < 0 || i >= evs.len() {
        if expected != next_id(wal_last) {
            Some(Corruption::ReplayRangeShort { next_expected: EventId(expected), wal_last_event_id: EventId(wal_last) })
        } else {
            None
        }
    } else if evs[i].event_id.0 != expected {
        Some(Corruption::ReplayRangeIncomplete { expected: EventId(expected), found: evs[i].event_id })
    } else {
        replay_range_error(wal_last, evs, i + 1, next_id(expected))
    }
}

/// The events to replay must be exactly the ids after the snapshot's cursor up
/// to the log's last event.
pub fn validate_replay_covers_wal_tail(snapshot_last_event_id: EventId, wal_last_event_id: EventId, replayed: &[SimEvent]) -> (r:
    Result<(), SimError>)
    ensures
        match replay_range_error(wal_last_event_id.0, replayed@, 0, next_id(snapshot_last_event_id.0)) {
            Some(c) => r == Err::<(), SimError>(SimError::CorruptedState(c)),
            None => r is Ok,
        },
{
    let mut expected: u64 = snapshot_last_event_id.next().0;
    let mut i: usize = 0;
    while i < replayed.len()
        invariant
            i <= replayed@.len(),
            replay_range_error(wal_last_event_id.0, replayed@, 0, next_id(snapshot_last_event_id.0))
                == replay_range_error(wal_last_event_id.0, replayed@, i as int, expected),
        decreases replayed@.len() - i,
    {
        if replayed[i].event_id.0 != expected {
            return Err(
                SimError::CorruptedState(
                    Corruption::ReplayRangeIncomplete { expected: EventId(expected), found: replayed[i].event_id },
                ),
            );
        }
        expected = if expected == u64::MAX { expected } else { expected + 1 };
        i = i + 1;
    }
    if expected != wal_last_event_id.next().0 {
        return Err(
            SimError::CorruptedState(
                Corruption::ReplayRangeShort { next_expected: EventId(expected), wal_last_event_id },
            ),
        );
    }
    Ok(())
}

fn is_replayable(event: &SimEvent) -> (r: bool)
    ensures
        r == replayable(*event),
{
    match &event.data {
        crate::events::EventData::EntitySpawned { entity_id, .. } => entity_id.0 < u64::MAX,
        _ => true,
    }
}

/// The first event, from position `i` on, that replay cannot apply without
/// running the entity counter past its largest value.
pub open spec fn unreplayable_error(evs: Seq<SimEvent>, i: int) -> Option<Corruption>
    decreases evs.len() - i,
{
    if i < 0 || i >= evs.len() {
        None
    } else if !replayable(evs[i]) {
        Some(Corruption::UnreplayableEvent { event_id: evs[i].event_id })
    } else {
        unreplayable_error(evs, i + 1)
    }
}

/// The error replay reports: the first unreplayable event, else the first
/// event that fails to apply, with its id.
pub open spec fn replay_error(w: WorldView, evs: Seq<SimEvent>) -> Option<Corruption> {
    match unreplayable_error(evs, 0) {
        Some(c) => Some(c),
        None => match spec_replay(w, evs).1 {
            Ok(_) => None,
            Err(e) => {
                let n = choose|n: nat| n < evs.len() && spec_replay(w, evs.take(n as int)).1 == Ok::<nat, ReplayError>(n)
                    && spec_replay(w, evs.take(n as int + 1)).1 == Err::<nat, ReplayError>(e);
                Some(Corruption::ReplayFailed { event_id: evs[n as int].event_id, error: e })
            },
        },
    }
}

proof fn lemma_replay_prefix_ok(w: WorldView, evs: Seq<SimEvent>, n: int)
    requires
        0 <= n <= evs.len(),
        spec_replay(w, evs).1 is Ok,
    ensures
        spec_replay(w, evs.take(n)).1 == Ok::<nat, ReplayError>(n as nat),
    decreases evs.len(),
{
    if evs.len() > 0 {
        if n == evs.len() {
            assert(evs.take(n) =~= evs);
            lemma_replay_count(w, evs);
        } else {
            assert(evs.drop_last().take(n) =~= evs.take(n));
            lemma_replay_prefix_ok(w, evs.drop_last(), n);
        }
    } else {
        assert(evs.take(n) =~= evs);
    }
}

proof fn lemma_replay_count(w: WorldView, evs: Seq<SimEvent>)
    requires
        spec_replay(w, evs).1 is Ok,
    ensures
        spec_replay(w, evs).1 == Ok::<nat, ReplayError>(evs.len()),
    decreases evs.len(),
{
    if evs.len() > 0 {
        lemma_replay_count(w, evs.drop_last());
    }
}

/// Replays the log's tail onto the recovered world: refuses events replay
/// cannot apply, then applies them in order, stopping at the first failure.
fn replay_checked(world: &mut World, events: &Vec<SimEvent>) -> (r: Result<(), SimError>)
    requires
        old(world).wf(),
    ensures
        match replay_error(old(world)@, events@) {
            None => r is Ok && final(world).wf() && final(world)@ == spec_replay(old(world)@, events@).0
                && spec_replay(old(world)@, events@).1 == Ok::<nat, ReplayError>(events@.len()),
            Some(c) => r == Err::<(), SimError>(SimError::CorruptedState(c)),
        },
{
    let mut i: usize = 0;
    while i < events.len()
        invariant
            i <= events@.len(),
            unreplayable_error(events@, 0) == unreplayable_error(events@, i as int),
            forall|j: int| 0 <= j < i ==> replayable(#[trigger] events@[j]),
        decreases events@.len() - i,
    {
        if !is_replayable(&events[i]) {
            return Err(SimError::CorruptedState(Corruption::UnreplayableEvent { event_id: events[i].event_id }));
        }
        i = i + 1;
    }
    let ghost w0 = world@;
    let mut k: usize = 0;
    while k < events.len()
        invariant
            world.wf(),
            w0 == old(world)@,
            k <= events@.len(),
            unreplayable_error(events@, 0) is None,
            forall|j: int| 0 <= j < events@.len() ==> replayable(#[trigger] events@[j]),
            world@ == spec_replay(w0, events@.take(k as int)).0,
            spec_replay(w0, events@.take(k as int)).1 == Ok::<nat, ReplayError>(k as nat),
        decreases events@.len() - k,
    {
        proof {
            assert(events@.take(k + 1).drop_last() =~= events@.take(k as int));
            assert(events@.take(k + 1).last() == events@[k as int]);
        }
        match apply_event(world, &events[k]) {
            Ok(()) => {},
            Err(e) => {
                proof {
                    assert(spec_replay(w0, events@.take(k + 1)).1 == Err::<nat, ReplayError>(e));
                    lemma_replay_err_extends(w0, events@, k as int + 1);
                    let n = choose|n: nat| n < events@.len() && spec_replay(w0, events@.take(n as int)).1 == Ok::<nat, ReplayError>(n)
                        && spec_replay(w0, events@.take(n as int + 1)).1 == Err::<nat, ReplayError>(e);
                    assert(spec_replay(w0, events@.take(k as int)).1 == Ok::<nat, ReplayError>(k as nat));
                    if n < k {
                        assert(events@.take(k as int).take(n as int + 1) =~= events@.take(n as int + 1));
                        assert(events@.take(k as int).take(k as int) =~= events@.take(k as int));
                        lemma_replay_err_extends(w0, events@.take(k as int), n as int + 1);
                    } else if n > k {
                        assert(events@.take(n as int).take(k as int + 1) =~= events@.take(k as int + 1));
                        assert(events@.take(n as int).take(n as int) =~= events@.take(n as int));
                        lemma_replay_err_extends(w0, events@.take(n as int), k as int + 1);
                    }
                }
                return Err(SimError::CorruptedState(Corruption::ReplayFailed { event_id: events[k].event_id, error: e }));
            },
        }
        k = k + 1;
    }
    proof {
        assert(events@.take(events@.len() as int) =~= events@);
    }
    Ok(())
}

/// Once a prefix of the events fails to replay, every longer prefix fails
/// with the same error.
proof fn lemma_replay_err_extends(w: WorldView, evs: Seq<SimEvent>, n: int)
    requires
        0 <= n <= evs.len(),
        spec_replay(w, evs.take(n)).1 is Err,
    ensures
        spec_replay(w, evs).1 == spec_replay(w, evs.take(n)).1,
    decreases evs.len() - n,
{
    if n < evs.len() {
        assert(evs.take(n + 1).drop_last() =~= evs.take(n));
        lemma_replay_err_extends(w, evs, n + 1);
    } else {
        assert(evs.take(n) =~= evs);
    }
}

/// A recovered world: a valid snapshot of the requested world, with the
/// replayed events applied in full.
pub open spec fn recovered_from(s: WorldSnapshot, world_id: Seq<char>, w: WorldView, replayed: Seq<SimEvent>) -> bool {
    &&& s.wf()
    &&& spec_validate_snapshot(s) is Ok
    &&& s.meta.world_id@ == world_id
    &&& spec_replay(snapshot_view(s), replayed) == (w, Ok::<nat, ReplayError>(replayed.len()))
}

/// An error handed back by the store or the log. An `InvalidWorldId` from
/// there is kept apart from the library's own refusal of an id.
pub open spec fn from_outside(e: SimError) -> SimError {
    match e {
        SimError::InvalidWorldId { world_id, errors } => SimError::StoreRejectedWorldId { world_id, errors },
        _ => e,
    }
}

fn outside_error(e: SimError) -> (r: SimError)
    ensures
        r == from_outside(e),
{
    match e {
        SimError::InvalidWorldId { world_id, errors } => SimError::StoreRejectedWorldId { world_id, errors },
        other => other,
    }
}

/// Whether a stored snapshot is accepted for the requested world: its tables
/// in key order, valid, and of that world.
pub open spec fn snapshot_accepted(world_id: Seq<char>, s: WorldSnapshot) -> bool {
    &&& spec_order_check(s) is None
    &&& spec_validate_snapshot(s) is Ok
    &&& s.meta.world_id@ == world_id
}

/// Checks a stored snapshot for the requested world and rebuilds the world
/// from it: the first of key order, validity and world id that fails is
/// reported.
pub fn check_snapshot_for(world_id: &str, snapshot: WorldSnapshot) -> (r: Result<World, SimError>)
    ensures
        r is Ok <==> snapshot_accepted(world_id@, snapshot),
        r matches Ok(w) ==> w.wf() && snapshot.wf() && w@ == snapshot_view(snapshot) && w.meta == snapshot.meta,
        spec_order_check(snapshot) matches Some(c) ==> r == Err::<World, SimError>(SimError::CorruptedState(c)),
        spec_order_check(snapshot) is None ==> (spec_validate_snapshot(snapshot) matches Err(e) ==> r == Err::<World, SimError>(e)),
        spec_order_check(snapshot) is None && spec_validate_snapshot(snapshot) is Ok && snapshot.meta.world_id@ != world_id@
            ==> (r matches Err(SimError::CorruptedState(Corruption::WorldIdMismatch { requested, snapshot: found }))
                && requested@ == world_id@ && found@ == snapshot.meta.world_id@),
{
    if let Some(c) = check_snapshot_order(&snapshot) {
        return Err(SimError::CorruptedState(c));
    }
    match validate_snapshot(&snapshot) {
        Ok(()) => {},
        Err(e) => {
            return Err(e);
        },
    }
    let ghost snap = snapshot;
    let world = snapshot.into_world();
    match validate_snapshot_world_id(&world, world_id) {
        Ok(()) => {},
        Err(e) => {
            return Err(e);
        },
    }
    Ok(world)
}

/// What recovery accepts as the metadata file: a copy of the snapshot's
/// metadata, the stale leftover of an interrupted save, or no file at all.
pub open spec fn recovered_meta_check(snapshot_meta: WorldMeta, file_meta: Result<WorldMeta, SimError>) -> Result<(), SimError> {
    match file_meta {
        Ok(m) => if meta_same(snapshot_meta, m) || stale_meta(snapshot_meta, m) {
            Ok(())
        } else {
            Err(SimError::CorruptedState(Corruption::MetaMismatch))
        },
        Err(SimError::NotFound(_)) => Ok(()),
        Err(e) => Err(from_outside(e)),
    }
}

/// Checks the store's answer for the metadata file during recovery against
/// the snapshot's metadata.
pub fn check_recovered_meta(snapshot_meta: &WorldMeta, file_meta: Result<WorldMeta, SimError>) -> (r: Result<(), SimError>)
    ensures
        r is Ok <==> recovered_meta_check(*snapshot_meta, file_meta) is Ok,
        r is Err ==> r == recovered_meta_check(*snapshot_meta, file_meta),
{
    match file_meta {
        Ok(meta) => {
            validate_recovered_meta_mirror(snapshot_meta, &meta)
        },
        Err(err) => {
            if is_missing_meta_error(&err) {
                Ok(())
            } else {
                Err(outside_error(err))
            }
        },
    }
}

/// Loads, checks and rebuilds the world stored under `world_id`.
fn load_checked_snapshot<S: IWorldStore>(store: &S, world_id: &str) -> (r: Result<(World, Ghost<WorldSnapshot>), SimError>)
    ensures
        world_id_errors(world_id.spec_bytes()).len() > 0 ==> r matches Err(SimError::InvalidWorldId { .. }),
        world_id_errors(world_id.spec_bytes()).len() == 0 ==> !(r matches Err(SimError::InvalidWorldId { .. })),
        r matches Ok((w, s)) ==> {
            &&& w.wf()
            &&& s@.wf()
            &&& snapshot_accepted(world_id@, s@)
            &&& w@ == snapshot_view(s@)
            &&& w.meta == s@.meta
        },
{
    match validate_world_id_result(world_id) {
        Ok(()) => {},
        Err(e) => {
            return Err(e);
        },
    }
    let snapshot = match store.load_snapshot(world_id) {
        Ok(s) => s,
        Err(e) => {
            return Err(outside_error(e));
        },
    };
    let ghost snap = snapshot;
    match check_snapshot_for(world_id, snapshot) {
        Ok(world) => Ok((world, Ghost(snap))),
        Err(e) => Err(e),
    }
}

/// The id of the log's durable tail: its last event's id, or zero when the
/// log holds no event.
pub open spec fn durable_tail(all: Seq<SimEvent>) -> EventId {
    if all.len() > 0 {
        all.last().event_id
    } else {
        EventId(0)
    }
}

/// The events of the log after the cursor `cursor`, in order.
pub open spec fn tail_after(all: Seq<SimEvent>, cursor: EventId) -> Seq<SimEvent> {
    crate::wal::log_after(all, cursor)
}

/// What recovery makes of a log whose announced cursor is `announced` and
/// whose valid events are `all`, for the world `w` loaded from a snapshot:
/// the events replayed after the snapshot's cursor, or the first check that
/// fails, in the order the checks run.
pub open spec fn tail_replay_outcome(w: WorldView, announced: EventId, all: Seq<SimEvent>) -> Result<Seq<SimEvent>, SimError> {
    let cursor = w.meta.last_event_id;
    let durable = durable_tail(all);
    let replayed = tail_after(all, cursor);
    if announced != durable {
        Err(SimError::CorruptedState(Corruption::WalCursorMismatch { announced, durable }))
    } else if contiguity_error(all, 0, 1) is Some {
        Err(SimError::CorruptedState(contiguity_error(all, 0, 1)->Some_0))
    } else if durable.0 < cursor.0 {
        Err(SimError::CorruptedState(Corruption::WalBehindSnapshot { wal_last_event_id: durable, snapshot_last_event_id: cursor }))
    } else if replay_range_error(durable.0, replayed, 0, next_id(cursor.0)) is Some {
        Err(SimError::CorruptedState(replay_range_error(durable.0, replayed, 0, next_id(cursor.0))->Some_0))
    } else if replay_error(w, replayed) is Some {
        Err(SimError::CorruptedState(replay_error(w, replayed)->Some_0))
    } else {
        Ok(replayed)
    }
}

/// Checks a log read back as its announced cursor `announced` and its valid
/// events `all_events` against the world's snapshot cursor, then replays the
/// events after that cursor onto the world.
pub fn replay_durable_tail(world: &mut World, announced: EventId, all_events: Vec<SimEvent>) -> (r: Result<Vec<SimEvent>, SimError>)
    requires
        old(world).wf(),
    ensures
        r is Ok <==> tail_replay_outcome(old(world)@, announced, all_events@) is Ok,
        r matches Ok(replayed) ==> tail_replay_outcome(old(world)@, announced, all_events@) == Ok::<Seq<SimEvent>, SimError>(replayed@),
        r matches Err(e) ==> tail_replay_outcome(old(world)@, announced, all_events@) == Err::<Seq<SimEvent>, SimError>(e),
        r is Ok ==> final(world).wf() && spec_replay(old(world)@, r->Ok_0@) == (
            final(world)@,
            Ok::<nat, ReplayError>(r->Ok_0@.len()),
        ),
{
    let last_event_id = world.meta.last_event_id;
    let durable = if all_events.len() > 0 {
        all_events[all_events.len() - 1].event_id
    } else {
        EventId(0)
    };
    match validate_wal_cursor_matches_durable_tail(announced, durable) {
        Ok(()) => {},
        Err(e) => {
            return Err(e);
        },
    }
    match validate_wal_prefix_is_contiguous(all_events.as_slice()) {
        Ok(()) => {},
        Err(e) => {
            return Err(e);
        },
    }
    match validate_wal_covers_snapshot(last_event_id, durable) {
        Ok(()) => {},
        Err(e) => {
            return Err(e);
        },
    }
    let replayed = events_after(&all_events, last_event_id);
    match validate_replay_covers_wal_tail(last_event_id, durable, replayed.as_slice()) {
        Ok(()) => {},
        Err(e) => {
            return Err(e);
        },
    }
    match replay_checked(world, &replayed) {
        Ok(()) => {},
        Err(e) => {
            return Err(e);
        },
    }
    Ok(replayed)
}

/// The log's answers read by recovery: its announced cursor and its valid
/// events, when the read succeeded.
pub type LogReads = Option<(EventId, Seq<SimEvent>)>;

/// Checks the log against the world's snapshot cursor and replays its tail.
/// Returns, beside the result, what the log answered: its announced cursor
/// and, if the read succeeded, its valid events. Given those answers the
/// result is exactly the recovery outcome.
fn replay_log_tail<E: IEventLog>(event_log: &E, world: &mut World) -> (r: (Result<Vec<SimEvent>, SimError>, Ghost<LogReads>))
    requires
        old(world).wf(),
    ensures
        r.0 matches Ok(replayed) ==> final(world).wf() && spec_replay(old(world)@, replayed@) == (
            final(world)@,
            Ok::<nat, ReplayError>(replayed@.len()),
        ),
        r.1@ is None ==> r.0 is Err,
        r.1@ matches Some((announced, all)) ==> {
            &&& (r.0 is Ok <==> tail_replay_outcome(old(world)@, announced, all) is Ok)
            &&& (r.0 matches Ok(replayed) ==> tail_replay_outcome(old(world)@, announced, all) == Ok::<Seq<SimEvent>, SimError>(replayed@))
            &&& (tail_replay_outcome(old(world)@, announced, all) matches Err(e) ==> r.0 == Err::<Vec<SimEvent>, SimError>(e))
        },
        !(r.0 matches Err(SimError::InvalidWorldId { .. })),
{
    let announced = event_log.last_event_id();
    let all_events = match event_log.read_all_valid() {
        Ok(v) => v,
        Err(e) => {
            return (Err(outside_error(e)), Ghost(None));
        },
    };
    let ghost all = all_events@;
    let r = replay_durable_tail(world, announced, all_events);
    (r, Ghost(Some((announced, all))))
}

/// What recovery of `world_id` leads to, given the snapshot it accepted and
/// what the log answered: the durable tail after the snapshot's cursor,
/// replayed onto the snapshot's world.
pub open spec fn recovery_from_reads(
    world_id: Seq<char>,
    s: WorldSnapshot,
    announced: EventId,
    all: Seq<SimEvent>,
    r: Result<(WorldView, Seq<SimEvent>), SimError>,
) -> bool {
    &&& snapshot_accepted(world_id, s)
    &&& match tail_replay_outcome(snapshot_view(s), announced, all) {
        Ok(replayed) => r == Ok::<(WorldView, Seq<SimEvent>), SimError>((spec_replay(snapshot_view(s), replayed).0, replayed)),
        Err(e) => r == Err::<(WorldView, Seq<SimEvent>), SimError>(e),
    }
}

/// The plain-value form of a recovery result.
pub open spec fn recovery_view(r: Result<(World, Vec<SimEvent>), SimError>) -> Result<(WorldView, Seq<SimEvent>), SimError> {
    match r {
        Ok((w, replayed)) => Ok((w@, replayed@)),
        Err(e) => Err(e),
    }
}

fn recover_world<S: IWorldStore, E: IEventLog>(store: &S, event_log: &E, world_id: &str) -> (r: (
    Result<(World, Vec<SimEvent>), SimError>,
    Ghost<LogReads>,
))
    ensures
        world_id_errors(world_id.spec_bytes()).len() > 0 ==> r.0 matches Err(SimError::InvalidWorldId { .. }),
        world_id_errors(world_id.spec_bytes()).len() == 0 ==> !(r.0 matches Err(SimError::InvalidWorldId { .. })),
        r.0 matches Ok((w, replayed)) ==> w.wf() && exists|s: WorldSnapshot| recovered_from(s, world_id@, w@, replayed@),
        r.0 is Ok ==> r.1@ is Some,
        r.1@ matches Some((announced, all)) ==> exists|s: WorldSnapshot|
            #[trigger] recovery_from_reads(world_id@, s, announced, all, recovery_view(r.0)),
{
    let (mut world, snap) = match load_checked_snapshot(store, world_id) {
        Ok(p) => p,
        Err(e) => {
            return (Err(e), Ghost(None));
        },
    };
    let file_meta = store.load_meta(world_id);
    match check_recovered_meta(&world.meta, file_meta) {
        Ok(()) => {},
        Err(e) => {
            return (Err(e), Ghost(None));
        },
    }
    let ghost w0 = world@;
    let (tail, reads) = replay_log_tail(event_log, &mut world);
    let replayed = match tail {
        Ok(v) => v,
        Err(e) => {
            proof {
                if let Some((a, all)) = reads@ {
                    assert(recovery_from_reads(world_id@, snap@, a, all, Err::<(WorldView, Seq<SimEvent>), SimError>(e)));
                }
            }
            return (Err(e), reads);
        },
    };
    proof {
        assert(recovered_from(snap@, world_id@, world@, replayed@));
        let (a, all) = reads@->Some_0;
        assert(recovery_from_reads(world_id@, snap@, a, all, Ok::<(WorldView, Seq<SimEvent>), SimError>((world@, replayed@))));
    }
    let r = (world, replayed);
    assert(recovered_from(snap@, world_id@, r.0@, r.1@));
    (Ok(r), reads)
}

/// Loads a snapshot and replays the durable log events after its cursor.
///
/// In order: the world id must be a safe storage key; the snapshot must load,
/// be in key order, be valid and be of that world; the metadata file, if
/// present, must mirror it (or be the leftover of an interrupted save); the
/// log must read, its announced cursor must be its durable tail, its ids must
/// run 1, 2, 3, ... and reach the snapshot's cursor; the events after the
/// cursor must be exactly the rest of the log, and must replay.
pub fn load_recovered_world<S: IWorldStore, E: IEventLog>(store: &S, event_log: &E, world_id: &str) -> (r: Result<
    (World, Vec<SimEvent>),
    SimError,
>)
    ensures
        world_id_errors(world_id.spec_bytes()).len() > 0 ==> r matches Err(SimError::InvalidWorldId { .. }),
        world_id_errors(world_id.spec_bytes()).len() == 0 ==> !(r matches Err(SimError::InvalidWorldId { .. })),
        r matches Ok((w, replayed)) ==> w.wf() && exists|s: WorldSnapshot| recovered_from(s, world_id@, w@, replayed@),
        r is Ok ==> exists|s: WorldSnapshot, announced: EventId, all: Seq<SimEvent>|
            #[trigger] recovery_from_reads(world_id@, s, announced, all, recovery_view(r)),
{
    let (r, reads) = recover_world(store, event_log, world_id);
    proof {
        if r is Ok {
            let (a, all) = reads@->Some_0;
            let s = choose|s: WorldSnapshot| #[trigger] recovery_from_reads(world_id@, s, a, all, recovery_view(r));
            assert(recovery_from_reads(world_id@, s, a, all, recovery_view(r)));
        }
    }
    r
}

/// Loads a snapshot whose metadata file must mirror it exactly, without
/// replaying the log.
pub fn load_snapshot_world<S: IWorldStore>(store: &S, world_id: &str) -> (r: Result<World, SimError>)
    ensures
        world_id_errors(world_id.spec_bytes()).len() > 0 ==> r matches Err(SimError::InvalidWorldId { .. }),
        world_id_errors(world_id.spec_bytes()).len() == 0 ==> !(r matches Err(SimError::InvalidWorldId { .. })),
        r matches Ok(w) ==> w.wf() && exists|s: WorldSnapshot| #[trigger] recovered_from(s, world_id@, w@, Seq::<SimEvent>::empty()),
        r matches Ok(w) ==> exists|s: WorldSnapshot, m: WorldMeta| {
            &&& snapshot_accepted(world_id@, s)
            &&& meta_same(s.meta, m)
            &&& w@ == snapshot_view(s)
        },
{
    let (world, snap) = match load_checked_snapshot(store, world_id) {
        Ok(p) => p,
        Err(e) => {
            return Err(e);
        },
    };
    let meta = match store.load_meta(world_id) {
        Ok(m) => m,
        Err(e) => {
            return Err(outside_error(e));
        },
    };
    match validate_meta_mirror(&world.meta, &meta) {
        Ok(()) => {},
        Err(e) => {
            return Err(e);
        },
    }
    proof {
        assert(spec_replay(snapshot_view(snap@), Seq::<SimEvent>::empty()) == (world@, Ok::<nat, ReplayError>(0)));
        assert(recovered_from(snap@, world_id@, world@, Seq::<SimEvent>::empty()));
        assert(snapshot_accepted(world_id@, snap@) && meta_same(snap@.meta, meta) && world@ == snapshot_view(snap@));
    }
    Ok(world)
}

/// The world after a save: its metadata mirrors its clocks and records the
/// snapshot's tick and the log cursor `last`.
pub open spec fn saved_view(w: WorldView, last: EventId) -> WorldView {
    WorldView {
        meta: WorldMeta {
            current_tick: w.current_tick,
            sim_time: w.sim_time,
            snapshot_tick: w.current_tick,
            last_event_id: last,
            ..w.meta
        },
        ..w
    }
}

/// The state a simulation resumes from a world: the world, its random stream
/// and its clock.
pub open spec fn resumed(w: WorldView) -> SimState {
    SimState { world: Some(w), seed: w.meta.seed, rng: w.rng_state, clock: w.current_tick }
}

/// A simulation resumed from a recovered world.
pub open spec fn resumed_from_recovery(st: SimState, world_id: Seq<char>, replayed: Seq<SimEvent>) -> bool {
    &&& st.world matches Some(w)
    &&& st == resumed(w)
    &&& exists|s: WorldSnapshot| #[trigger] recovered_from(s, world_id, w, replayed)
}

/// Whether a world may be created under `world_id`, from what the store
/// reports for the id and what the log holds: only absent storage and an
/// empty log let creation go on.
pub open spec fn creation_gate_spec(
    status: Result<WorldStorageStatus, SimError>,
    log_is_empty: bool,
    log_len: u64,
    world_id: String,
) -> Result<(), ApiError> {
    match status {
        Err(e) => Err(ApiError::StorageError(e)),
        Ok(WorldStorageStatus::Complete) => Err(ApiError::WorldAlreadyExists(world_id)),
        Ok(WorldStorageStatus::Incomplete { reason }) => Err(ApiError::StorageError(SimError::IncompleteStorage { world_id, reason })),
        Ok(WorldStorageStatus::Absent) => if log_is_empty {
            Ok(())
        } else {
            Err(ApiError::StorageError(SimError::WalNotEmpty { world_id, events: log_len }))
        },
    }
}

/// Decides whether a world may be created under `world_id`: complete storage
/// means the world exists, incomplete storage or a store failure is a storage
/// error, and so is a log that already holds events.
pub fn creation_gate(
    status: Result<WorldStorageStatus, SimError>,
    log_is_empty: bool,
    log_len: u64,
    world_id: String,
) -> (r: Result<(), ApiError>)
    ensures
        r is Ok <==> creation_gate_spec(status, log_is_empty, log_len, world_id) is Ok,
        r is Err ==> r == creation_gate_spec(status, log_is_empty, log_len, world_id),
{
    match status {
        Err(e) => Err(ApiError::StorageError(e)),
        Ok(WorldStorageStatus::Absent) => {
            if log_is_empty {
                Ok(())
            } else {
                Err(ApiError::StorageError(SimError::WalNotEmpty { world_id, events: log_len }))
            }
        },
        Ok(WorldStorageStatus::Complete) => Err(ApiError::WorldAlreadyExists(world_id)),
        Ok(WorldStorageStatus::Incomplete { reason }) => Err(ApiError::StorageError(SimError::IncompleteStorage { world_id, reason })),
    }
}

/// Persistent runtime that commits core events to the log before accepting
/// the state they lead to.
pub struct PersistentSimulation<R: IRng, C: ISimClock, E: IEventLog, S: IWorldStore> {
    sim: Simulation<R, C>,
    event_log: E,
    store: S,
    /// The batches handed to the log, in order.
    handed: Ghost<Seq<Seq<SimEvent>>>,
    /// The batches the log reported as stored, in order.
    accepted: Ghost<Seq<Seq<SimEvent>>>,
    /// The snapshots handed to the store, in order.
    snapshots: Ghost<Seq<WorldSnapshot>>,
    /// The metadata records handed to the store, in order.
    metas: Ghost<Seq<WorldMeta>>,
    /// The cursors the log announced when asked, in order.
    announced: Ghost<Seq<EventId>>,
    /// The valid events the log returned when read, in order.
    read_back: Ghost<Seq<Seq<SimEvent>>>,
    /// How many times the log reported a successful sync.
    syncs: Ghost<nat>,
    /// The decisions of the creation gate, in order.
    gates: Ghost<Seq<Result<(), ApiError>>>,
}

/// The store's records after a save of the world view `sv`: `snap` and
/// `meta` say whether the snapshot and the metadata of `sv` were handed to
/// the store.
pub open spec fn save_records(
    old_snaps: Seq<WorldSnapshot>,
    new_snaps: Seq<WorldSnapshot>,
    old_metas: Seq<WorldMeta>,
    new_metas: Seq<WorldMeta>,
    sv: WorldView,
    snap: bool,
    meta: bool,
) -> bool {
    &&& if snap {
        &&& new_snaps.len() == old_snaps.len() + 1
        &&& new_snaps.drop_last() == old_snaps
        &&& new_snaps.last().wf()
        &&& snapshot_view(new_snaps.last()) == sv
    } else {
        new_snaps == old_snaps
    }
    &&& if meta {
        new_metas == old_metas.push(sv.meta)
    } else {
        new_metas == old_metas
    }
}

impl<R: IRng, C: ISimClock, E: IEventLog, S: IWorldStore> PersistentSimulation<R, C, E, S> {
    /// The simulation's abstract state.
    pub closed spec fn state(&self) -> SimState {
        self.sim.state()
    }

    pub closed spec fn wf(&self) -> bool {
        self.sim.wf()
    }

    /// Commands that stay inside the machine's counters.
    pub closed spec fn within_limits(&self, cmd: SimCommand) -> bool {
        self.sim.within_limits(cmd)
    }

    /// The batches handed to the log's `append_batch`, in order.
    pub closed spec fn handed(&self) -> Seq<Seq<SimEvent>> {
        self.handed@
    }

    /// The batches the log reported as stored, in order.
    pub closed spec fn accepted(&self) -> Seq<Seq<SimEvent>> {
        self.accepted@
    }

    /// The snapshots handed to the store's `save_snapshot`, in order.
    pub closed spec fn saved_snapshots(&self) -> Seq<WorldSnapshot> {
        self.snapshots@
    }

    /// The metadata records handed to the store's `save_meta`, in order.
    pub closed spec fn saved_metas(&self) -> Seq<WorldMeta> {
        self.metas@
    }

    /// The cursors the log's `last_event_id` returned, in order.
    pub closed spec fn announced(&self) -> Seq<EventId> {
        self.announced@
    }

    /// The event lists the log's `read_all_valid` returned, in order.
    pub closed spec fn read_back(&self) -> Seq<Seq<SimEvent>> {
        self.read_back@
    }

    /// How many times the log's `sync` succeeded.
    pub closed spec fn syncs(&self) -> nat {
        self.syncs@
    }

    /// The decisions of the creation gate, in order.
    pub closed spec fn gate_decisions(&self) -> Seq<Result<(), ApiError>> {
        self.gates@
    }

    pub fn new(rng: R, clock: C, event_log: E, store: S) -> (r: Self)
        ensures
            r.wf(),
            forall|cmd: SimCommand| r.within_limits(cmd),
            r.state() == (SimState { world: None, seed: rng.spec_seed(), rng: rng.spec_state(), clock: clock.spec_tick() }),
            r.handed() == Seq::<Seq<SimEvent>>::empty(),
            r.accepted() == Seq::<Seq<SimEvent>>::empty(),
            r.saved_snapshots() == Seq::<WorldSnapshot>::empty(),
            r.saved_metas() == Seq::<WorldMeta>::empty(),
            r.announced() == Seq::<EventId>::empty(),
            r.read_back() == Seq::<Seq<SimEvent>>::empty(),
            r.syncs() == 0,
            r.gate_decisions() == Seq::<Result<(), ApiError>>::empty(),
    {
        PersistentSimulation {
            sim: Simulation::new(rng, clock),
            event_log,
            store,
            handed: Ghost(Seq::empty()),
            accepted: Ghost(Seq::empty()),
            snapshots: Ghost(Seq::empty()),
            metas: Ghost(Seq::empty()),
            announced: Ghost(Seq::empty()),
            read_back: Ghost(Seq::empty()),
            syncs: Ghost(0),
            gates: Ghost(Seq::empty()),
        }
    }

    pub fn simulation(&self) -> (r: &Simulation<R, C>)
        ensures
            r.state() == self.state(),
            r.wf() == self.wf(),
    {
        &self.sim
    }

    pub fn world(&self) -> (r: Option<&World>)
        requires
            self.wf(),
        ensures
            match r {
                Some(w) => self.state().world == Some(w@) && w.wf(),
                None => self.state().world is None,
            },
    {
        self.sim.world()
    }

    /// The world's tick, or 0 when no world is loaded.
    pub fn current_tick(&self) -> (r: Tick)
        ensures
            r == match self.state().world {
                Some(w) => w.current_tick,
                None => Tick(0),
            },
    {
        self.sim.current_tick()
    }

    /// Whether a command stays inside the machine's counters.
    pub fn fits_limits(&self, cmd: &SimCommand) -> (r: bool)
        ensures
            r == self.within_limits(*cmd),
    {
        self.sim.fits_limits(cmd)
    }

    /// Processes a command and commits its events to the log as one batch.
    ///
    /// Creating a world first requires that no storage exists for its id and
    /// that the log is empty. If the log refuses the batch, the simulation is
    /// rolled back; on any error nothing changes.
    pub fn process_command(&mut self, command: SimCommand) -> (r: Result<Vec<SimEvent>, ApiError>)
        requires
            old(self).wf(),
            old(self).within_limits(command),
        ensures
            final(self).wf(),
            r is Err ==> final(self).state() == old(self).state(),
            r is Ok ==> exists|evs: Seq<SimEvent>| step_ok::<R>(old(self).state(), command, final(self).state(), evs),
            r matches Err(ApiError::ValidationFailed(errs)) ==> errs@ == command_errors(command),
            command_errors(command).len() > 0 ==> r is Err,
            r matches Err(ApiError::WorldAlreadyExists(id)) ==> match command {
                SimCommand::CreateWorld(c) => id@ == crate::text::world_id_chars(c.seed.0) || old(self).state().world is Some,
                _ => false,
            },
            !(command is CreateWorld) && command_errors(command).len() > 0 ==> (r matches Err(ApiError::ValidationFailed(errs))
                && errs@ == command_errors(command)),
            forall|e: ApiError|
                !(command is CreateWorld) && command_errors(command).len() == 0 && #[trigger] step_err::<R>(old(self).state(), command, e)
                    ==> r == Err::<Vec<SimEvent>, ApiError>(e),
            !(command is CreateWorld) && command_errors(command).len() == 0
                && (exists|s2: SimState, evs: Seq<SimEvent>| step_ok::<R>(old(self).state(), command, s2, evs))
                ==> (r is Ok || r matches Err(ApiError::StorageError(_))),
            r matches Ok(persisted) ==> exists|evs: Seq<SimEvent>| {
                &&& step_ok::<R>(old(self).state(), command, final(self).state(), evs)
                &&& final(self).handed() == old(self).handed().push(evs)
                &&& final(self).accepted() == old(self).accepted().push(persisted@)
            },
            r matches Err(ApiError::StorageError(_)) ==> {
                ||| final(self).handed() == old(self).handed()
                ||| exists|s2: SimState, evs: Seq<SimEvent>| {
                    &&& step_ok::<R>(old(self).state(), command, s2, evs)
                    &&& final(self).handed() == old(self).handed().push(evs)
                }
            },
            !(command is CreateWorld) && (r matches Err(ApiError::StorageError(_))) ==> exists|s2: SimState, evs: Seq<SimEvent>| {
                &&& step_ok::<R>(old(self).state(), command, s2, evs)
                &&& final(self).handed() == old(self).handed().push(evs)
            },
            r is Err && !(r matches Err(ApiError::StorageError(_))) ==> final(self).handed() == old(self).handed(),
            r is Err ==> final(self).accepted() == old(self).accepted(),
            final(self).saved_snapshots() == old(self).saved_snapshots(),
            final(self).saved_metas() == old(self).saved_metas(),
            final(self).announced() == old(self).announced(),
            final(self).read_back() == old(self).read_back(),
            final(self).syncs() == old(self).syncs(),
            !(command is CreateWorld) ==> final(self).gate_decisions() == old(self).gate_decisions(),
            command is CreateWorld ==> {
                &&& final(self).gate_decisions().len() == old(self).gate_decisions().len() + 1
                &&& final(self).gate_decisions().drop_last() == old(self).gate_decisions()
            },
            command matches SimCommand::CreateWorld(c) ==> exists|
                status: Result<WorldStorageStatus, SimError>,
                log_is_empty: bool,
                log_len: u64,
                id: String,
            |
                id@ == crate::text::world_id_chars(c.seed.0) && #[trigger] creation_gate_spec(status, log_is_empty, log_len, id)
                    == final(self).gate_decisions().last(),
            command is CreateWorld && final(self).gate_decisions().last() is Err ==> {
                &&& r matches Err(e) && final(self).gate_decisions().last() == Err::<(), ApiError>(e)
                &&& final(self).handed() == old(self).handed()
            },
    {
        if let SimCommand::CreateWorld(c) = &command {
            let world_id = world_id_for_seed(c.seed.0);
            let status = self.store.storage_status(world_id.as_str());
            let log_is_empty = self.event_log.is_empty();
            let log_len = if log_is_empty { 0 } else { self.event_log.len() };
            let ghost g = creation_gate_spec(status, log_is_empty, log_len, world_id);
            proof {
                self.gates@ = self.gates@.push(g);
            }
            match creation_gate(status, log_is_empty, log_len, world_id) {
                Ok(()) => {},
                Err(e) => {
                    return Err(e);
                },
            }
        }
        let checkpoint = self.sim.checkpoint();
        let events = match self.sim.process_command(command) {
            Ok(evs) => evs,
            Err(e) => {
                return Err(e);
            },
        };
        let ghost evs = events@;
        proof {
            self.handed@ = self.handed@.push(evs);
        }
        match self.event_log.append_batch(events) {
            Ok(persisted) => {
                proof {
                    self.accepted@ = self.accepted@.push(persisted@);
                    assert(step_ok::<R>(old(self).state(), command, self.state(), evs));
                    assert(self.handed() == old(self).handed().push(evs));
                }
                Ok(persisted)
            },
            Err(e) => {
                self.sim.restore_checkpoint(checkpoint);
                Err(ApiError::StorageError(e))
            },
        }
    }

    /// Saves the loaded world: its metadata is brought up to date with its
    /// clocks and the log's last event, the log is synced, then the snapshot
    /// and the metadata are written, and the simulation resumes from the
    /// saved world. The log must reach the world's previous cursor.
    pub fn save_world(&mut self) -> (r: Result<(), ApiError>)
        requires
            old(self).wf(),
        ensures
            final(self).wf(),
            old(self).state().world is None ==> r == Err::<(), ApiError>(ApiError::NoWorldLoaded),
            old(self).state().world is Some ==> (r is Ok || r matches Err(ApiError::StorageError(_))),
            r is Err ==> final(self).state() == old(self).state(),
            old(self).state().world is None ==> final(self).announced() == old(self).announced(),
            old(self).state().world is Some ==> {
                &&& final(self).announced().len() == old(self).announced().len() + 1
                &&& final(self).announced().drop_last() == old(self).announced()
            },
            final(self).syncs() == old(self).syncs() || final(self).syncs() == old(self).syncs() + 1,
            final(self).saved_snapshots() != old(self).saved_snapshots() ==> final(self).syncs() == old(self).syncs() + 1,
            r is Ok ==> {
                let w = old(self).state().world->Some_0;
                let c = final(self).announced().last();
                &&& c.0 >= w.meta.last_event_id.0
                &&& final(self).syncs() == old(self).syncs() + 1
                &&& final(self).state() == resumed(saved_view(w, c))
                &&& save_records(
                    old(self).saved_snapshots(),
                    final(self).saved_snapshots(),
                    old(self).saved_metas(),
                    final(self).saved_metas(),
                    saved_view(w, c),
                    true,
                    true,
                )
            },
            r is Err ==> {
                let w = old(self).state().world->Some_0;
                let c = final(self).announced().last();
                ||| final(self).saved_snapshots() == old(self).saved_snapshots() && final(self).saved_metas() == old(self).saved_metas()
                ||| save_records(
                    old(self).saved_snapshots(),
                    final(self).saved_snapshots(),
                    old(self).saved_metas(),
                    final(self).saved_metas(),
                    saved_view(w, c),
                    true,
                    false,
                )
                ||| save_records(
                    old(self).saved_snapshots(),
                    final(self).saved_snapshots(),
                    old(self).saved_metas(),
                    final(self).saved_metas(),
                    saved_view(w, c),
                    true,
                    true,
                )
            },
            final(self).read_back() == old(self).read_back(),
            final(self).gate_decisions() == old(self).gate_decisions(),
            final(self).handed() == old(self).handed(),
            final(self).accepted() == old(self).accepted(),
    {
        let mut world = match self.sim.world() {
            Some(w) => w.clone(),
            None => {
                return Err(ApiError::NoWorldLoaded);
            },
        };
        let wal_last_event_id = self.event_log.last_event_id();
        proof {
            self.announced@ = self.announced@.push(wal_last_event_id);
        }
        match validate_wal_covers_snapshot(world.meta.last_event_id, wal_last_event_id) {
            Ok(()) => {},
            Err(e) => {
                return Err(ApiError::StorageError(e));
            },
        }
        let ghost w0 = world@;
        assert(w0 == old(self).state().world->Some_0);
        world.meta.current_tick = world.current_tick;
        world.meta.sim_time = world.sim_time;
        world.meta.snapshot_tick = world.current_tick;
        world.meta.last_event_id = wal_last_event_id;
        assert(world@ == saved_view(w0, wal_last_event_id));
        let snapshot = WorldSnapshot::of(&world);
        proof {
            crate::snapshot::law_snapshot_describes_world(world, snapshot);
        }
        let world_id = world.meta.world_id.clone();
        match self.event_log.sync() {
            Ok(()) => {},
            Err(e) => {
                return Err(ApiError::StorageError(e));
            },
        }
        proof {
            self.syncs@ = self.syncs@ + 1;
            self.snapshots@ = self.snapshots@.push(snapshot);
            assert(self.snapshots@.drop_last() == old(self).saved_snapshots());
            assert(save_records(old(self).saved_snapshots(), self.snapshots@, old(self).saved_metas(), self.metas@,
                saved_view(w0, wal_last_event_id), true, false));
        }
        match self.store.save_snapshot(world_id.as_str(), &snapshot) {
            Ok(()) => {},
            Err(e) => {
                return Err(ApiError::StorageError(e));
            },
        }
        proof {
            self.metas@ = self.metas@.push(world.meta);
            assert(save_records(old(self).saved_snapshots(), self.snapshots@, old(self).saved_metas(), self.metas@,
                saved_view(w0, wal_last_event_id), true, true));
        }
        match self.store.save_meta(&world.meta) {
            Ok(()) => {},
            Err(e) => {
                return Err(ApiError::StorageError(e));
            },
        }
        self.sim.load_world_state(world);
        proof {
            assert(final(self).state() == resumed(saved_view(w0, wal_last_event_id)));
            assert(w0 == old(self).state().world->Some_0);
        }
        Ok(())
    }

    /// Recovers a world from its snapshot and log, and resumes the simulation
    /// from it. Returns the replayed events.
    pub fn load_world(&mut self, world_id: &str) -> (r: Result<Vec<SimEvent>, ApiError>)
        requires
            old(self).wf(),
        ensures
            final(self).wf(),
            r is Err ==> final(self).state() == old(self).state(),
            world_id_errors(world_id.spec_bytes()).len() > 0 ==> r matches Err(
                ApiError::StorageError(SimError::InvalidWorldId { .. }),
            ),
            world_id_errors(world_id.spec_bytes()).len() == 0 ==> !(r matches Err(
                ApiError::StorageError(SimError::InvalidWorldId { .. }),
            )),
            r matches Ok(replayed) ==> resumed_from_recovery(final(self).state(), world_id@, replayed@),
            r matches Err(ApiError::WorldNotFound(id)) ==> id@ == world_id@,
            final(self).handed() == old(self).handed(),
            final(self).accepted() == old(self).accepted(),
            final(self).saved_snapshots() == old(self).saved_snapshots(),
            final(self).saved_metas() == old(self).saved_metas(),
            final(self).syncs() == old(self).syncs(),
            final(self).gate_decisions() == old(self).gate_decisions(),
            final(self).announced() == old(self).announced() && final(self).read_back() == old(self).read_back()
                || final(self).announced().drop_last() == old(self).announced() && final(self).read_back().drop_last()
                == old(self).read_back() && final(self).announced().len() == old(self).announced().len() + 1,
            r is Ok ==> final(self).announced().len() == old(self).announced().len() + 1,
            r matches Ok(replayed) ==> exists|s: WorldSnapshot|
                #[trigger] recovery_from_reads(
                    world_id@,
                    s,
                    final(self).announced().last(),
                    final(self).read_back().last(),
                    Ok::<(WorldView, Seq<SimEvent>), SimError>((final(self).state().world->Some_0, replayed@)),
                ),
            final(self).announced().len() == old(self).announced().len() + 1 && r is Err ==> (r matches Err(
                ApiError::StorageError(e),
            ) && exists|s: WorldSnapshot|
                #[trigger] recovery_from_reads(
                    world_id@,
                    s,
                    final(self).announced().last(),
                    final(self).read_back().last(),
                    Err::<(WorldView, Seq<SimEvent>), SimError>(e),
                )),
    {
        let (result, reads) = recover_world(&self.store, &self.event_log, world_id);
        proof {
            if let Some((a, all)) = reads@ {
                self.announced@ = self.announced@.push(a);
                self.read_back@ = self.read_back@.push(all);
            }
        }
        let ghost rv = recovery_view(result);
        match result {
            Ok((world, replayed)) => {
                let ghost w = world@;
                self.sim.load_world_state(world);
                proof {
                    let s = choose|s: WorldSnapshot| recovered_from(s, world_id@, w, replayed@);
                    assert(recovered_from(s, world_id@, w, replayed@));
                    assert(self.state() == resumed(w));
                    assert(resumed_from_recovery(self.state(), world_id@, replayed@));
                    let (a, all) = reads@->Some_0;
                    assert(self.announced().last() == a);
                    assert(self.read_back().last() == all);
                    assert(rv == Ok::<(WorldView, Seq<SimEvent>), SimError>((self.state().world->Some_0, replayed@)));
                }
                Ok(replayed)
            },
            Err(SimError::NotFound(x)) => {
                proof {
                    if let Some((a, all)) = reads@ {
                        let s = choose|s: WorldSnapshot| #[trigger] recovery_from_reads(world_id@, s, a, all, rv);
                        assert(recovery_from_reads(world_id@, s, a, all, rv));
                        assert(false);
                    }
                }
                Err(ApiError::WorldNotFound(world_id.to_owned()))
            },
            Err(other) => {
                proof {
                    if let Some((a, all)) = reads@ {
                        assert(self.announced().last() == a);
                        assert(self.read_back().last() == all);
                        assert(rv == Err::<(WorldView, Seq<SimEvent>), SimError>(other));
                    }
                }
                Err(ApiError::StorageError(other))
            },
        }
    }

    /// The simulation, the log and the store.
    pub fn into_parts(self) -> (r: (Simulation<R, C>, E, S))
        ensures
            r.0.state() == self.state(),
            r.0.wf() == self.wf(),
    {
        (self.sim, self.event_log, self.store)
    }
}

/// Saving keeps a world's invariants and marks it as its own snapshot: the
/// saved world's metadata records its tick as the snapshot tick, so (by
/// `law_saved_world_validates`) its snapshot is accepted when loaded back.
pub proof fn law_save_marks_snapshot(w: WorldView, last: EventId)
    requires
        crate::laws::coherent(w),
        crate::indexing::indexed(w),
    ensures
        crate::laws::coherent(saved_view(w, last)),
        crate::indexing::indexed(saved_view(w, last)),
        saved_view(w, last).meta.snapshot_tick == saved_view(w, last).current_tick,
        saved_view(w, last).meta.last_event_id == last,
        saved_view(w, last).meta.format_version == w.meta.format_version,
{
    crate::indexing::lemma_indexed_same_tables(w, saved_view(w, last));
}

} // verus!
