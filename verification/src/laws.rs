//! Laws that relate the simulation to replay: recovery is replay.
use vstd::prelude::*;

use crate::events::SimEvent;
use crate::replay::{bump_tick, spec_apply_event, spec_replay, ReplayError};
use crate::sim::{
    cleanup_fold, rule_step, rules_fold, spec_tick, spec_ticks, spec_world_command, step_ok,
    IRng, SimState, TickState, active_keys, dead_keys,
};
use crate::commands::SimCommand;
use crate::types::Tick;
use crate::world::WorldView;

verus! {

/// A world whose counters agree with each other and whose entity table is
/// keyed by entity id, with every id below the next id to allocate.
pub open spec fn coherent(w: WorldView) -> bool {
    &&& w.sim_time.units == w.current_tick.0
    &&& w.meta.current_tick == w.current_tick
    &&& w.meta.sim_time == w.sim_time
    &&& forall|k: int| #[trigger] w.entities.contains_key(k) ==> w.entities[k].id.0 == k && k < w.next_entity_id
}

/// Events that all happened at tick `t` and are not save markers.
pub open spec fn all_at_tick(evs: Seq<SimEvent>, t: Tick) -> bool {
    forall|i: int| 0 <= i < evs.len() ==> (#[trigger] evs[i]).tick == t && !(evs[i].data is WorldSaved)
}

/// Replay of `evs` from `w` ends in `w2` having applied every event.
pub open spec fn replays_to(w: WorldView, evs: Seq<SimEvent>, w2: WorldView) -> bool {
    spec_replay(w, evs) == (w2, Ok::<nat, ReplayError>(evs.len()))
}

proof fn lemma_replay_push(w: WorldView, evs: Seq<SimEvent>, e: SimEvent)
    ensures
        spec_replay(w, evs.push(e)) == ({
            let (w1, r1) = spec_replay(w, evs);
            match r1 {
                Err(err) => (w1, Err(err)),
                Ok(n) => match spec_apply_event(w1, e) {
                    Ok(w2) => (w2, Ok(n + 1)),
                    Err(err) => (w1, Err(err)),
                },
            }
        }),
{
    assert(evs.push(e).drop_last() =~= evs);
}

/// Replaying two runs back to back.
proof fn lemma_replay_append(w: WorldView, a: Seq<SimEvent>, wa: WorldView, b: Seq<SimEvent>)
    requires
        replays_to(w, a, wa),
    ensures
        spec_replay(w, a + b).0 == spec_replay(wa, b).0,
        spec_replay(w, a + b).1 == match spec_replay(wa, b).1 {
            Ok(n) => Ok::<nat, ReplayError>(a.len() + n),
            Err(e) => Err(e),
        },
    decreases b.len(),
{
    if b.len() == 0 {
        assert(a + b =~= a);
    } else {
        lemma_replay_append(w, a, wa, b.drop_last());
        assert((a + b).drop_last() =~= a + b.drop_last());
        assert((a + b).last() == b.last());
    }
}

proof fn lemma_rules_replay<R: IRng>(seed: crate::types::RngSeed, w0: WorldView, st0: TickState, ids: Seq<int>)
    requires
        replays_to(w0, st0.events, st0.w),
        coherent(st0.w),
        all_at_tick(st0.events, st0.w.current_tick),
    ensures
        ({
            let st = rules_fold::<R>(seed, st0, ids);
            &&& replays_to(w0, st.events, st.w)
            &&& coherent(st.w)
            &&& st.w.current_tick == st0.w.current_tick
            &&& all_at_tick(st.events, st0.w.current_tick)
            &&& st.w.entities.dom() == st0.w.entities.dom()
            &&& st.w.next_entity_id == st0.w.next_entity_id
        }),
    decreases ids.len(),
{
    if ids.len() > 0 {
        lemma_rules_replay::<R>(seed, w0, st0, ids.drop_last());
        let sp = rules_fold::<R>(seed, st0, ids.drop_last());
        let id = ids.last();
        let st = rule_step::<R>(seed, sp, id);
        let t = sp.w.current_tick;
        assert(bump_tick(sp.w, t) == sp.w);
        if sp.w.entities.contains_key(id) {
            let e = sp.w.entities[id];
            assert(e.id.0 == id);
            let w1 = st.w;
            // each rule writes the entity under its own key
            assert forall|k: int| #[trigger] w1.entities.contains_key(k) implies w1.entities[k].id.0 == k && k < w1.next_entity_id by {
                assert(sp.w.entities.contains_key(k));
            }
            assert(w1.entities.dom() =~= sp.w.entities.dom());
            if st.events.len() == sp.events.len() + 1 {
                let x = st.events.last();
                assert(st.events.drop_last() =~= sp.events);
                lemma_replay_push(w0, sp.events, x);
                assert(spec_apply_event(sp.w, x) == Ok::<WorldView, ReplayError>(w1)) by {
                    assert(w1.entities =~= sp.w.entities.insert(id, w1.entities[id]));
                }
            } else if st.events.len() == sp.events.len() + 2 {
                let x = st.events[st.events.len() - 2];
                let y = st.events.last();
                let mid = sp.events.push(x);
                assert(st.events.drop_last() =~= mid);
                assert(mid.drop_last() =~= sp.events);
                lemma_replay_push(w0, sp.events, x);
                lemma_replay_push(w0, mid, y);
                let wx = spec_apply_event(sp.w, x)->Ok_0;
                assert(spec_apply_event(sp.w, x) is Ok);
                assert(bump_tick(wx, t) == wx);
                assert(spec_apply_event(wx, y) == Ok::<WorldView, ReplayError>(w1)) by {
                    assert(spec_apply_event(wx, y)->Ok_0.entities =~= w1.entities);
                }
            } else {
                assert(st.events =~= sp.events);
                assert(w1 =~= sp.w);
            }
            assert forall|i: int| 0 <= i < st.events.len() implies (#[trigger] st.events[i]).tick == t && !(st.events[i].data is WorldSaved) by {
                if i < sp.events.len() {
                    assert(st.events[i] == sp.events[i]);
                }
            }
        }
    }
}

proof fn lemma_cleanup_replay(w0: WorldView, st0: TickState, ids: Seq<int>)
    requires
        replays_to(w0, st0.events, st0.w),
        coherent(st0.w),
        all_at_tick(st0.events, st0.w.current_tick),
    ensures
        ({
            let st = cleanup_fold(st0, ids);
            &&& replays_to(w0, st.events, st.w)
            &&& coherent(st.w)
            &&& st.w.current_tick == st0.w.current_tick
            &&& all_at_tick(st.events, st0.w.current_tick)
            &&& st.w.next_entity_id == st0.w.next_entity_id
        }),
    decreases ids.len(),
{
    if ids.len() > 0 {
        lemma_cleanup_replay(w0, st0, ids.drop_last());
        let sp = cleanup_fold(st0, ids.drop_last());
        let id = ids.last();
        let st = cleanup_fold(st0, ids);
        let t = sp.w.current_tick;
        if sp.w.entities.contains_key(id) {
            let x = st.events.last();
            assert(st.events.drop_last() =~= sp.events);
            lemma_replay_push(w0, sp.events, x);
            assert(bump_tick(sp.w, t) == sp.w);
            assert(sp.w.entities[id].id.0 == id);
            assert(((id as u64) as int) == id);
            assert(spec_apply_event(sp.w, x) == Ok::<WorldView, ReplayError>(st.w));
            assert forall|k: int| #[trigger] st.w.entities.contains_key(k) implies st.w.entities[k].id.0 == k && k < st.w.next_entity_id by {
                assert(sp.w.entities.contains_key(k));
            }
            assert forall|i: int| 0 <= i < st.events.len() implies (#[trigger] st.events[i]).tick == t && !(st.events[i].data is WorldSaved) by {
                if i < sp.events.len() {
                    assert(st.events[i] == sp.events[i]);
                }
            }
        }
    }
}

/// Replay from a world equals replay from the same world with its clock
/// already moved to the events' tick.
proof fn lemma_replay_from_bumped(w: WorldView, evs: Seq<SimEvent>, t: Tick)
    requires
        evs.len() > 0,
        all_at_tick(evs, t),
    ensures
        spec_replay(bump_tick(w, t), evs).1 is Ok ==> spec_replay(w, evs) == spec_replay(bump_tick(w, t), evs),
    decreases evs.len(),
{
    let w1 = bump_tick(w, t);
    assert(bump_tick(w1, t) == w1);
    let last = evs[evs.len() - 1];
    assert(last.tick == t && !(last.data is WorldSaved));
    assert(evs.last() == last);
    assert(spec_apply_event(w, last) == spec_apply_event(w1, last));
    if evs.len() == 1 {
        assert(evs.drop_last() =~= Seq::<SimEvent>::empty());
        assert(evs[0] == evs.last());
        assert(evs =~= Seq::<SimEvent>::empty().push(last));
        lemma_replay_push(w, Seq::<SimEvent>::empty(), last);
        lemma_replay_push(w1, Seq::<SimEvent>::empty(), last);
        assert(spec_replay(w, Seq::<SimEvent>::empty()) == (w, Ok::<nat, ReplayError>(0)));
        assert(spec_replay(w1, Seq::<SimEvent>::empty()) == (w1, Ok::<nat, ReplayError>(0)));
    } else {
        assert forall|i: int| 0 <= i < evs.drop_last().len() implies (#[trigger] evs.drop_last()[i]).tick == t && !(evs.drop_last()[i].data is WorldSaved) by {
            assert(evs.drop_last()[i] == evs[i]);
        }
        lemma_replay_from_bumped(w, evs.drop_last(), t);
        assert(evs =~= evs.drop_last().push(last));
        lemma_replay_push(w, evs.drop_last(), last);
        lemma_replay_push(w1, evs.drop_last(), last);
    }
}

/// The events of one tick, replayed on the world before the tick, give the
/// world after it.
proof fn lemma_tick_replay<R: IRng>(seed: crate::types::RngSeed, rng: u64, w: WorldView)
    requires
        coherent(w),
    ensures
        ({
            let (w3, r3, evs) = spec_tick::<R>(seed, rng, w);
            &&& replays_to(w, evs, w3)
            &&& coherent(w3)
            &&& w3.next_entity_id == w.next_entity_id
        }),
{
    let w1 = w.advanced();
    let t = w1.current_tick;
    assert(w1 == bump_tick(w, t));
    assert(coherent(w1)) by {
        assert forall|k: int| #[trigger] w1.entities.contains_key(k) implies w1.entities[k].id.0 == k && k < w1.next_entity_id by {
            assert(w.entities.contains_key(k));
        }
    }
    let st0 = TickState { w: w1, rng, events: seq![], processed: 0 };
    assert(replays_to(w1, st0.events, st0.w));
    lemma_rules_replay::<R>(seed, w1, st0, active_keys(w1));
    let st1 = rules_fold::<R>(seed, st0, active_keys(w1));
    if t.0 % 100 == 0 {
        lemma_cleanup_replay(w1, st1, dead_keys(st1.w));
    }
    let st2 = if t.0 % 100 == 0 { cleanup_fold(st1, dead_keys(st1.w)) } else { st1 };
    let (w3, r3, evs) = spec_tick::<R>(seed, rng, w);
    let tp = evs.last();
    assert(evs.drop_last() =~= st2.events);
    lemma_replay_push(w1, st2.events, tp);
    assert(bump_tick(st2.w, t) == st2.w);
    assert(spec_apply_event(st2.w, tp) == Ok::<WorldView, ReplayError>(w3));
    assert(replays_to(w1, evs, w3));
    assert(all_at_tick(evs, t)) by {
        assert forall|i: int| 0 <= i < evs.len() implies (#[trigger] evs[i]).tick == t && !(evs[i].data is WorldSaved) by {
            if i < st2.events.len() {
                assert(evs[i] == st2.events[i]);
            }
        }
    }
    lemma_replay_from_bumped(w, evs, t);
    assert forall|k: int| #[trigger] w3.entities.contains_key(k) implies w3.entities[k].id.0 == k && k < w3.next_entity_id by {
        assert(st2.w.entities.contains_key(k));
    }
}

proof fn lemma_ticks_replay<R: IRng>(seed: crate::types::RngSeed, rng: u64, w: WorldView, n: nat)
    requires
        coherent(w),
    ensures
        ({
            let (w3, r3, evs) = spec_ticks::<R>(seed, rng, w, n);
            &&& replays_to(w, evs, w3)
            &&& coherent(w3)
            &&& w3.next_entity_id == w.next_entity_id
        }),
    decreases n,
{
    if n > 0 {
        lemma_ticks_replay::<R>(seed, rng, w, (n - 1) as nat);
        let (w1, r1, e1) = spec_ticks::<R>(seed, rng, w, (n - 1) as nat);
        lemma_tick_replay::<R>(seed, r1, w1);
        let (w2, r2, e2) = spec_tick::<R>(seed, r1, w1);
        lemma_replay_append(w, e1, w1, e2);
    } else {
        assert(spec_ticks::<R>(seed, rng, w, 0).2 =~= Seq::<SimEvent>::empty());
    }
}

/// Recovery is replay: for every command that succeeds on a loaded, coherent
/// world, replaying the events the command reported, starting from the world
/// before the command, yields exactly the world after it.
pub proof fn law_replay_reproduces_command<R: IRng>(s: SimState, cmd: SimCommand, s2: SimState, evs: Seq<SimEvent>)
    requires
        s.world matches Some(w) && coherent(w) && w.next_entity_id < u64::MAX,
        step_ok::<R>(s, cmd, s2, evs),
    ensures
        s2.world is Some,
        replays_to(s.world->Some_0, evs, s2.world->Some_0),
        coherent(s2.world->Some_0),
{
    let w = s.world->Some_0;
    match cmd {
        SimCommand::CreateWorld(_) => {
            assert(s.world is None);
            assert(replays_to(w, evs, s2.world->Some_0));
        },
        SimCommand::Tick => {
            lemma_tick_replay::<R>(s.seed, s.rng, w);
            let (w3, r3, e3) = spec_tick::<R>(s.seed, s.rng, w);
            assert(spec_world_command::<R>(s, w, cmd) == Ok::<(SimState, Seq<SimEvent>), crate::errors::ApiError>((s2, evs)));
            assert(s2.world == Some(w3));
            assert(evs == e3);
            assert(replays_to(w, evs, s2.world->Some_0));
        },
        SimCommand::TickN(n) => {
            lemma_ticks_replay::<R>(s.seed, s.rng, w, n as nat);
            let (w3, r3, e3) = spec_ticks::<R>(s.seed, s.rng, w, n as nat);
            assert(spec_world_command::<R>(s, w, cmd) == Ok::<(SimState, Seq<SimEvent>), crate::errors::ApiError>((s2, evs)));
            assert(s2.world == Some(w3));
            assert(evs == e3);
            assert(replays_to(w, evs, s2.world->Some_0));
        },
        SimCommand::SpawnEntity(c) => {
            let e = evs[0];
            assert(evs.drop_last() =~= Seq::<SimEvent>::empty());
            assert(evs =~= Seq::<SimEvent>::empty().push(e));
            lemma_replay_push(w, Seq::<SimEvent>::empty(), e);
            assert(spec_replay(w, Seq::<SimEvent>::empty()) == (w, Ok::<nat, ReplayError>(0)));
            assert(bump_tick(w, e.tick) == w);
            assert(!w.entities.contains_key(w.next_entity_id as int));
            let w2 = s2.world->Some_0;
            assert(spec_apply_event(w, e) == Ok::<WorldView, ReplayError>(w2));
            assert forall|k: int| #[trigger] w2.entities.contains_key(k) implies w2.entities[k].id.0 == k && k < w2.next_entity_id by {
                if k != w.next_entity_id as int {
                    assert(w.entities.contains_key(k));
                }
            }
            assert(replays_to(w, evs, s2.world->Some_0));
        },
        SimCommand::DespawnEntity(id) => {
            let e = evs[0];
            assert(evs.drop_last() =~= Seq::<SimEvent>::empty());
            assert(evs =~= Seq::<SimEvent>::empty().push(e));
            lemma_replay_push(w, Seq::<SimEvent>::empty(), e);
            assert(spec_replay(w, Seq::<SimEvent>::empty()) == (w, Ok::<nat, ReplayError>(0)));
            assert(bump_tick(w, e.tick) == w);
            let w2 = s2.world->Some_0;
            assert(spec_apply_event(w, e) == Ok::<WorldView, ReplayError>(w2));
            assert forall|k: int| #[trigger] w2.entities.contains_key(k) implies w2.entities[k].id.0 == k && k < w2.next_entity_id by {
                assert(w.entities.contains_key(k));
            }
            assert(replays_to(w, evs, s2.world->Some_0));
        },
        SimCommand::CreateZone(c) => {
            let e = evs[0];
            assert(evs.drop_last() =~= Seq::<SimEvent>::empty());
            assert(evs =~= Seq::<SimEvent>::empty().push(e));
            lemma_replay_push(w, Seq::<SimEvent>::empty(), e);
            assert(spec_replay(w, Seq::<SimEvent>::empty()) == (w, Ok::<nat, ReplayError>(0)));
            assert(bump_tick(w, e.tick) == w);
            let w2 = s2.world->Some_0;
            assert(spec_apply_event(w, e) == Ok::<WorldView, ReplayError>(w2));
            assert(replays_to(w, evs, s2.world->Some_0));
        },
    }
}

/// The state after `n` `Tick` commands in a row, and their events.
pub open spec fn ticks_one_by_one<R: IRng>(s: SimState, n: nat) -> (SimState, Seq<SimEvent>)
    decreases n,
{
    if n == 0 {
        (s, seq![])
    } else {
        let (s1, e1) = ticks_one_by_one::<R>(s, (n - 1) as nat);
        match s1.world {
            Some(w1) => match spec_world_command::<R>(s1, w1, SimCommand::Tick) {
                Ok((s2, e2)) => (s2, e1 + e2),
                Err(_) => (s1, e1),
            },
            None => (s1, e1),
        }
    }
}

/// `TickN(n)` is identical to `n` `Tick` commands: same state, same events.
pub proof fn law_tick_n_is_n_ticks<R: IRng>(s: SimState, n: u32)
    requires
        s.world is Some,
        n >= 1,
    ensures
        spec_world_command::<R>(s, s.world->Some_0, SimCommand::TickN(n)) == Ok::<(SimState, Seq<SimEvent>), crate::errors::ApiError>(
            ticks_one_by_one::<R>(s, n as nat),
        ),
    decreases n,
{
    let w = s.world->Some_0;
    if n == 1 {
        let (w2, r2, e2) = spec_tick::<R>(s.seed, s.rng, w);
        assert(spec_ticks::<R>(s.seed, s.rng, w, 0) == (w, s.rng, Seq::<SimEvent>::empty()));
        assert(Seq::<SimEvent>::empty() + e2 =~= e2);
        assert(ticks_one_by_one::<R>(s, 0) == (s, Seq::<SimEvent>::empty()));
    } else {
        law_tick_n_is_n_ticks::<R>(s, (n - 1) as u32);
        let (w1, r1, e1) = spec_ticks::<R>(s.seed, s.rng, w, (n - 1) as nat);
        let (w2, r2, e2) = spec_tick::<R>(s.seed, r1, w1);
        let s1 = ticks_one_by_one::<R>(s, (n - 1) as nat).0;
        assert(s1 == SimState { world: Some(w1), rng: r1, clock: w1.current_tick, ..s });
    }
}

/// Commands are deterministic: from the same state, a command either fails
/// with one error or leads to one state with one list of events. (World
/// creation is left out: the world it creates is fixed up to the characters
/// of its strings.)
pub proof fn law_command_deterministic<R: IRng>(
    s: SimState,
    cmd: SimCommand,
    s2: SimState,
    evs2: Seq<SimEvent>,
    s3: SimState,
    evs3: Seq<SimEvent>,
    e: crate::errors::ApiError,
)
    requires
        !(cmd is CreateWorld),
    ensures
        step_ok::<R>(s, cmd, s2, evs2) && step_ok::<R>(s, cmd, s3, evs3) ==> s2 == s3 && evs2 == evs3,
        !(step_ok::<R>(s, cmd, s2, evs2) && crate::sim::step_err::<R>(s, cmd, e)),
{
}

/// A run of successful commands: each state leads to the next by its
/// command, reporting its events.
pub open spec fn command_run<R: IRng>(states: Seq<SimState>, cmds: Seq<SimCommand>, evs: Seq<Seq<SimEvent>>) -> bool {
    &&& states.len() == cmds.len() + 1
    &&& evs.len() == cmds.len()
    &&& forall|i: int| 0 <= i < cmds.len() ==> step_ok::<R>(#[trigger] states[i], cmds[i], states[i + 1], evs[i])
}

/// Recovery is replay over whole runs: replaying, in order, the events of a
/// run of successful commands from the world before the run yields the world
/// after it (for a coherent starting world, with entity ids left to
/// allocate along the way).
pub proof fn law_replay_reproduces_run<R: IRng>(states: Seq<SimState>, cmds: Seq<SimCommand>, evs: Seq<Seq<SimEvent>>)
    requires
        command_run::<R>(states, cmds, evs),
        states[0].world matches Some(w) && coherent(w),
        forall|i: int| 0 <= i < cmds.len() && (#[trigger] states[i]).world is Some ==> states[i].world->Some_0.next_entity_id < u64::MAX,
    ensures
        states.last().world is Some,
        coherent(states.last().world->Some_0),
        replays_to(states[0].world->Some_0, crate::wal::flatten(evs), states.last().world->Some_0),
    decreases cmds.len(),
{
    let w0 = states[0].world->Some_0;
    if cmds.len() == 0 {
        assert(crate::wal::flatten(evs) =~= Seq::<SimEvent>::empty());
        assert(spec_replay(w0, Seq::<SimEvent>::empty()) == (w0, Ok::<nat, ReplayError>(0)));
    } else {
        let n = cmds.len() - 1;
        let states1 = states.drop_last();
        let cmds1 = cmds.drop_last();
        let evs1 = evs.drop_last();
        assert(command_run::<R>(states1, cmds1, evs1)) by {
            assert forall|i: int| 0 <= i < cmds1.len() implies step_ok::<R>(#[trigger] states1[i], cmds1[i], states1[i + 1], evs1[i]) by {
                assert(step_ok::<R>(states[i], cmds[i], states[i + 1], evs[i]));
            }
        }
        assert forall|i: int| 0 <= i < cmds1.len() && (#[trigger] states1[i]).world is Some implies states1[i].world->Some_0.next_entity_id < u64::MAX by {
            assert(states1[i] == states[i]);
        }
        law_replay_reproduces_run::<R>(states1, cmds1, evs1);
        let wm = states1.last().world->Some_0;
        assert(states1.last() == states[n]);
        assert(step_ok::<R>(states[n], cmds[n], states[n + 1], evs[n]));
        law_replay_reproduces_command::<R>(states[n], cmds[n], states[n + 1], evs[n]);
        lemma_replay_append(w0, crate::wal::flatten(evs1), wm, evs[n]);
        assert(evs.drop_last() == evs1);
        assert(crate::wal::flatten(evs) == crate::wal::flatten(evs1) + evs[n]);
        let total = crate::wal::flatten(evs);
        assert(spec_replay(wm, evs[n]).1 == Ok::<nat, ReplayError>(evs[n].len()));
        assert(total.len() == crate::wal::flatten(evs1).len() + evs[n].len());
    }
}

/// Crash recovery reproduces the uninterrupted run: when a world was saved
/// as snapshot `s`, a run of successful commands followed from it, and the
/// events recovery replays after the snapshot are the batches of that run in
/// order (what the persistent runtime handed to the log), the recovered
/// world is the world the run ended in.
pub proof fn law_recovery_matches_uninterrupted_run<R: IRng>(
    states: Seq<SimState>,
    cmds: Seq<SimCommand>,
    evs: Seq<Seq<SimEvent>>,
    s: crate::snapshot::WorldSnapshot,
    world_id: Seq<char>,
    w: WorldView,
)
    requires
        command_run::<R>(states, cmds, evs),
        states[0].world == Some(crate::snapshot::snapshot_view(s)),
        coherent(crate::snapshot::snapshot_view(s)),
        forall|i: int| 0 <= i < cmds.len() && (#[trigger] states[i]).world is Some ==> states[i].world->Some_0.next_entity_id < u64::MAX,
        crate::runtime::recovered_from(s, world_id, w, crate::wal::flatten(evs)),
    ensures
        states.last().world == Some(w),
{
    law_replay_reproduces_run::<R>(states, cmds, evs);
}

/// One run of the rules over a resource with stock left draws once with
/// probability 1% (10000 parts per million). On a hit its stock drops by one,
/// a `ResourceDepleted` event reports the unit lost and what remains, and at
/// zero the resource becomes dead with an `EntityStateChanged` event; on a
/// miss nothing but the random state changes.
pub proof fn law_resource_depletes<R: IRng>(seed: crate::types::RngSeed, st: TickState, id: int)
    requires
        st.w.entities.contains_key(id),
        st.w.entities[id].id.0 == id,
        st.w.entities[id].kind == crate::types::EntityKind::Resource,
        st.w.entities[id].properties.amount is Some,
        st.w.entities[id].properties.amount->Some_0 > 0,
    ensures
        ({
            let e = st.w.entities[id];
            let a = e.properties.amount->Some_0;
            let (hit, next) = R::draw(seed, st.rng, crate::sim::Probability { parts_per_million: 10000 });
            let r = rule_step::<R>(seed, st, id);
            &&& r.rng == next
            &&& hit ==> {
                &&& r.w.entities.contains_key(id)
                &&& r.w.entities[id].properties.amount == Some((a - 1) as u32)
                &&& r.events.len() > st.events.len()
                &&& r.events.subrange(0, st.events.len() as int) == st.events
                &&& r.events[st.events.len() as int].data == (crate::events::EventData::ResourceDepleted {
                    entity_id: e.id,
                    amount: 1,
                    remaining: (a - 1) as u32,
                })
                &&& r.events[st.events.len() as int].tick == st.w.current_tick
                &&& (a == 1 ==> r.w.entities[id].state == crate::types::EntityState::Dead
                    && r.events.len() == st.events.len() + 2
                    && r.events.last().data == (crate::events::EventData::EntityStateChanged {
                        entity_id: e.id,
                        old_state: e.state,
                        new_state: crate::types::EntityState::Dead,
                    }))
                &&& (a > 1 ==> r.w.entities[id].state == e.state && r.events.len() == st.events.len() + 1)
            }
            &&& !hit ==> r.w == st.w && r.events == st.events
        }),
{
    let e = st.w.entities[id];
    let (hit, next) = R::draw(seed, st.rng, crate::sim::Probability { parts_per_million: 10000 });
    let r = rule_step::<R>(seed, st, id);
    assert(crate::sim::resource_depletion() == crate::sim::Probability { parts_per_million: 10000 });
    if hit {
        assert(r.events.subrange(0, st.events.len() as int) =~= st.events);
    }
}

/// One run of the rules over a creature with health left draws once with
/// probability 0.5% (5000 parts per million). On a hit its health drops by
/// one, an `EntityDegraded` event reports the old and new health, and at zero
/// the creature becomes dead with an `EntityStateChanged` event; on a miss
/// nothing but the random state changes.
pub proof fn law_creature_degrades<R: IRng>(seed: crate::types::RngSeed, st: TickState, id: int)
    requires
        st.w.entities.contains_key(id),
        st.w.entities[id].id.0 == id,
        st.w.entities[id].kind == crate::types::EntityKind::Creature,
        st.w.entities[id].properties.health is Some,
        st.w.entities[id].properties.health->Some_0 > 0,
    ensures
        ({
            let e = st.w.entities[id];
            let h = e.properties.health->Some_0;
            let (hit, next) = R::draw(seed, st.rng, crate::sim::Probability { parts_per_million: 5000 });
            let r = rule_step::<R>(seed, st, id);
            &&& r.rng == next
            &&& hit ==> {
                &&& r.w.entities.contains_key(id)
                &&& r.w.entities[id].properties.health == Some((h - 1) as u32)
                &&& r.events.len() > st.events.len()
                &&& r.events.subrange(0, st.events.len() as int) == st.events
                &&& r.events[st.events.len() as int].data == (crate::events::EventData::EntityDegraded {
                    entity_id: e.id,
                    old_health: h,
                    new_health: (h - 1) as u32,
                })
                &&& (h == 1 ==> r.w.entities[id].state == crate::types::EntityState::Dead
                    && r.events.len() == st.events.len() + 2
                    && r.events.last().data == (crate::events::EventData::EntityStateChanged {
                        entity_id: e.id,
                        old_state: e.state,
                        new_state: crate::types::EntityState::Dead,
                    }))
                &&& (h > 1 ==> r.w.entities[id].state == e.state && r.events.len() == st.events.len() + 1)
            }
            &&& !hit ==> r.w == st.w && r.events == st.events
        }),
{
    let (hit, next) = R::draw(seed, st.rng, crate::sim::Probability { parts_per_million: 5000 });
    let r = rule_step::<R>(seed, st, id);
    assert(crate::sim::creature_degradation() == crate::sim::Probability { parts_per_million: 5000 });
    if hit {
        assert(r.events.subrange(0, st.events.len() as int) =~= st.events);
    }
}

proof fn lemma_keys_in_state(keys: Seq<int>, m: Map<int, crate::world::Entity>, state: crate::types::EntityState)
    ensures
        forall|k: int| #[trigger] crate::sim::keys_in_state(keys, m, state).contains(k) <==> keys.contains(k) && m[k].state == state,
    decreases keys.len(),
{
    if keys.len() > 0 {
        lemma_keys_in_state(keys.drop_last(), m, state);
        let r = crate::sim::keys_in_state(keys.drop_last(), m, state);
        assert forall|k: int| #[trigger] crate::sim::keys_in_state(keys, m, state).contains(k) <==> keys.contains(k) && m[k].state == state by {
            assert(keys.contains(k) <==> keys.drop_last().contains(k) || keys.last() == k) by {
                if keys.contains(k) {
                    let i = choose|i: int| 0 <= i < keys.len() && keys[i] == k;
                    if i < keys.len() - 1 {
                        assert(keys.drop_last()[i] == k);
                    }
                }
                if keys.drop_last().contains(k) {
                    let i = choose|i: int| 0 <= i < keys.drop_last().len() && keys.drop_last()[i] == k;
                    assert(keys[i] == k);
                }
                if keys.last() == k {
                    assert(keys[keys.len() - 1] == k);
                }
            }
            if m[keys.last()].state == state {
                assert(r.push(keys.last()).contains(k) <==> r.contains(k) || k == keys.last()) by {
                    if r.push(keys.last()).contains(k) {
                        let i = choose|i: int| 0 <= i < r.push(keys.last()).len() && r.push(keys.last())[i] == k;
                        if i < r.len() {
                            assert(r[i] == k);
                        }
                    }
                    if r.contains(k) {
                        let i = choose|i: int| 0 <= i < r.len() && r[i] == k;
                        assert(r.push(keys.last())[i] == k);
                    }
                    if k == keys.last() {
                        assert(r.push(keys.last())[r.len() as int] == k);
                    }
                }
            }
        }
    }
}

proof fn lemma_cleanup_removes(st: TickState, ids: Seq<int>)
    requires
        forall|i: int| 0 <= i < ids.len() ==> 0 <= #[trigger] ids[i] <= u64::MAX,
    ensures
        forall|k: int| #[trigger] cleanup_fold(st, ids).w.entities.contains_key(k) <==> st.w.entities.contains_key(k) && !ids.contains(k),
        forall|k: int| #[trigger] cleanup_fold(st, ids).w.entities.contains_key(k) ==> cleanup_fold(st, ids).w.entities[k] == st.w.entities[k],
    decreases ids.len(),
{
    if ids.len() > 0 {
        assert forall|i: int| 0 <= i < ids.drop_last().len() implies 0 <= #[trigger] ids.drop_last()[i] <= u64::MAX by {
            assert(ids.drop_last()[i] == ids[i]);
        }
        lemma_cleanup_removes(st, ids.drop_last());
        let s1 = cleanup_fold(st, ids.drop_last());
        let id = ids.last();
        assert forall|k: int| #[trigger] ids.contains(k) <==> ids.drop_last().contains(k) || id == k by {
            if ids.contains(k) {
                let i = choose|i: int| 0 <= i < ids.len() && ids[i] == k;
                if i < ids.len() - 1 {
                    assert(ids.drop_last()[i] == k);
                }
            }
            if ids.drop_last().contains(k) {
                let i = choose|i: int| 0 <= i < ids.drop_last().len() && ids.drop_last()[i] == k;
                assert(ids[i] == k);
            }
            if id == k {
                assert(ids[ids.len() - 1] == k);
            }
        }
        if s1.w.entities.contains_key(id) {
            assert(s1.w.without_entity(crate::types::EntityId(id as u64)).entities =~= s1.w.entities.remove(id));
        }
    }
}

/// Removing the dead, as every hundredth tick does, leaves no dead entity
/// and keeps every other entity as it was.
pub proof fn law_cleanup_removes_dead(st: TickState)
    requires
        exists|s: Seq<int>| crate::keyed::increasing(s) && (forall|k: int| #[trigger] s.contains(k) <==> st.w.entities.dom().contains(k)),
        forall|k: int| #[trigger] st.w.entities.contains_key(k) ==> st.w.entities[k].id.0 == k,
    ensures
        ({
            let r = cleanup_fold(st, dead_keys(st.w));
            &&& forall|k: int| #[trigger] r.w.entities.contains_key(k) ==> r.w.entities[k].state != crate::types::EntityState::Dead
            &&& forall|k: int| #[trigger] st.w.entities.contains_key(k) && st.w.entities[k].state != crate::types::EntityState::Dead
                ==> r.w.entities.contains_key(k) && r.w.entities[k] == st.w.entities[k]
        }),
{
    let keys = crate::keyed::sorted_keys(st.w.entities);
    assert(forall|k: int| #[trigger] keys.contains(k) <==> st.w.entities.dom().contains(k));
    lemma_keys_in_state(keys, st.w.entities, crate::types::EntityState::Dead);
    let ds = dead_keys(st.w);
    assert forall|i: int| 0 <= i < ds.len() implies 0 <= #[trigger] ds[i] <= u64::MAX by {
        assert(ds.contains(ds[i]));
        assert(st.w.entities.contains_key(ds[i]));
    }
    lemma_cleanup_removes(st, ds);
}

/// An entity table keyed by entity id.
pub open spec fn keyed_by_id(m: Map<int, crate::world::Entity>) -> bool {
    forall|k: int| #[trigger] m.contains_key(k) ==> m[k].id.0 == k
}

proof fn lemma_rules_keep_keys<R: IRng>(seed: crate::types::RngSeed, st: TickState, ids: Seq<int>)
    requires
        keyed_by_id(st.w.entities),
    ensures
        rules_fold::<R>(seed, st, ids).w.entities.dom() == st.w.entities.dom(),
        keyed_by_id(rules_fold::<R>(seed, st, ids).w.entities),
    decreases ids.len(),
{
    if ids.len() > 0 {
        lemma_rules_keep_keys::<R>(seed, st, ids.drop_last());
        let s1 = rules_fold::<R>(seed, st, ids.drop_last());
        let r = rule_step::<R>(seed, s1, ids.last());
        assert(r.w.entities.dom() =~= s1.w.entities.dom());
    }
}

/// A tick removes dead entities exactly on every hundredth tick: when the
/// new tick is a multiple of 100 no dead entity is left, and on any other
/// tick every entity is kept.
pub proof fn law_tick_removes_dead<R: IRng>(seed: crate::types::RngSeed, rng: u64, w: WorldView)
    requires
        keyed_by_id(w.entities),
        exists|s: Seq<int>| crate::keyed::increasing(s) && (forall|k: int| #[trigger] s.contains(k) <==> w.entities.dom().contains(k)),
    ensures
        ({
            let t = w.advanced().current_tick;
            let w3 = spec_tick::<R>(seed, rng, w).0;
            &&& t.0 % 100 == 0 ==> forall|k: int| #[trigger] w3.entities.contains_key(k)
                ==> w3.entities[k].state != crate::types::EntityState::Dead
            &&& t.0 % 100 != 0 ==> w3.entities.dom() == w.entities.dom()
        }),
{
    let w1 = w.advanced();
    let st0 = TickState { w: w1, rng, events: seq![], processed: 0 };
    assert(w1.entities == w.entities);
    lemma_rules_keep_keys::<R>(seed, st0, active_keys(w1));
    let st1 = rules_fold::<R>(seed, st0, active_keys(w1));
    let s = choose|s: Seq<int>| crate::keyed::increasing(s) && (forall|k: int| #[trigger] s.contains(k) <==> w.entities.dom().contains(k));
    assert(forall|k: int| #[trigger] s.contains(k) <==> st1.w.entities.dom().contains(k));
    law_cleanup_removes_dead(st1);
}

/// The rules draw nothing and change nothing for an entity with nothing to
/// lose: an item, a structure, a resource without stock, or a creature
/// without health.
pub proof fn law_rules_skip_exhausted<R: IRng>(seed: crate::types::RngSeed, st: TickState, id: int)
    requires
        st.w.entities.contains_key(id),
        ({
            let e = st.w.entities[id];
            ||| e.kind == crate::types::EntityKind::Item
            ||| e.kind == crate::types::EntityKind::Structure
            ||| e.kind == crate::types::EntityKind::Resource && (e.properties.amount is None || e.properties.amount == Some(0u32))
            ||| e.kind == crate::types::EntityKind::Creature && (e.properties.health is None || e.properties.health == Some(0u32))
        }),
    ensures
        rule_step::<R>(seed, st, id).w == st.w,
        rule_step::<R>(seed, st, id).rng == st.rng,
        rule_step::<R>(seed, st, id).events == st.events,
{
}

} // verus!
