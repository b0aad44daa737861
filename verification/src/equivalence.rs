//! Worlds that agree up to the identity of their strings: the same values
//! everywhere, with the world's identifier, its name and the zone names
//! compared by their characters.
use vstd::prelude::*;

use crate::commands::SimCommand;
use crate::sim::{
    active_keys, cleanup_fold, dead_keys, rule_step, rules_fold, spec_tick, spec_ticks, spec_world_command, IRng,
    SimState, TickState,
};
use crate::types::RngSeed;
use crate::world::{WorldMeta, WorldView, ZoneView};

verus! {

pub open spec fn opt_text(o: Option<String>) -> Option<Seq<char>> {
    match o {
        Some(s) => Some(s@),
        None => None,
    }
}

pub open spec fn meta_eqv(a: WorldMeta, b: WorldMeta) -> bool {
    &&& a.world_id@ == b.world_id@
    &&& a.name@ == b.name@
    &&& a.seed == b.seed
    &&& a.current_tick == b.current_tick
    &&& a.sim_time == b.sim_time
    &&& a.created_tick == b.created_tick
    &&& a.snapshot_tick == b.snapshot_tick
    &&& a.last_event_id == b.last_event_id
    &&& a.format_version == b.format_version
}

pub open spec fn zone_eqv(a: ZoneView, b: ZoneView) -> bool {
    &&& a.id == b.id
    &&& opt_text(a.name) == opt_text(b.name)
    &&& a.loaded == b.loaded
    &&& a.entities == b.entities
}

/// Two worlds that agree up to the identity of their strings.
pub open spec fn world_eqv(a: WorldView, b: WorldView) -> bool {
    &&& meta_eqv(a.meta, b.meta)
    &&& a.current_tick == b.current_tick
    &&& a.sim_time == b.sim_time
    &&& a.rng_state == b.rng_state
    &&& a.next_entity_id == b.next_entity_id
    &&& a.entities == b.entities
    &&& a.zones.dom() == b.zones.dom()
    &&& forall|k: int| #[trigger] a.zones.contains_key(k) ==> zone_eqv(a.zones[k], b.zones[k])
}

/// Two simulation states that agree up to the identity of their strings.
pub open spec fn state_eqv(a: SimState, b: SimState) -> bool {
    &&& a.seed == b.seed
    &&& a.rng == b.rng
    &&& a.clock == b.clock
    &&& match (a.world, b.world) {
        (Some(x), Some(y)) => world_eqv(x, y),
        (None, None) => true,
        _ => false,
    }
}

proof fn lemma_eqv_without(a: WorldView, b: WorldView, id: crate::types::EntityId)
    requires
        world_eqv(a, b),
    ensures
        world_eqv(a.without_entity(id), b.without_entity(id)),
{
    let k0 = id.0 as int;
    if a.entities.contains_key(k0) {
        let zk = a.entities[k0].position.zone.0 as int;
        let a2 = a.without_entity(id);
        let b2 = b.without_entity(id);
        assert(a2.zones.dom() =~= b2.zones.dom());
        assert forall|k: int| #[trigger] a2.zones.contains_key(k) implies zone_eqv(a2.zones[k], b2.zones[k]) by {
            assert(a.zones.contains_key(k));
        }
    }
}

proof fn lemma_eqv_with(a: WorldView, b: WorldView, e: crate::world::Entity)
    requires
        world_eqv(a, b),
    ensures
        world_eqv(a.with_entity(e), b.with_entity(e)),
{
    let a2 = a.with_entity(e);
    let b2 = b.with_entity(e);
    assert(a2.zones.dom() =~= b2.zones.dom());
    assert forall|k: int| #[trigger] a2.zones.contains_key(k) implies zone_eqv(a2.zones[k], b2.zones[k]) by {
        assert(a.zones.contains_key(k));
    }
}

proof fn lemma_eqv_rules_fold<R: IRng>(seed: RngSeed, s1: TickState, s2: TickState, ids: Seq<int>)
    requires
        world_eqv(s1.w, s2.w),
        s1.rng == s2.rng,
        s1.processed == s2.processed,
        s1.events == s2.events,
    ensures
        world_eqv(rules_fold::<R>(seed, s1, ids).w, rules_fold::<R>(seed, s2, ids).w),
        rules_fold::<R>(seed, s1, ids).rng == rules_fold::<R>(seed, s2, ids).rng,
        rules_fold::<R>(seed, s1, ids).processed == rules_fold::<R>(seed, s2, ids).processed,
        rules_fold::<R>(seed, s1, ids).events == rules_fold::<R>(seed, s2, ids).events,
    decreases ids.len(),
{
    if ids.len() > 0 {
        lemma_eqv_rules_fold::<R>(seed, s1, s2, ids.drop_last());
        let p1 = rules_fold::<R>(seed, s1, ids.drop_last());
        let p2 = rules_fold::<R>(seed, s2, ids.drop_last());
        let q1 = rule_step::<R>(seed, p1, ids.last());
        let q2 = rule_step::<R>(seed, p2, ids.last());
        assert forall|k: int| #[trigger] q1.w.zones.contains_key(k) implies zone_eqv(q1.w.zones[k], q2.w.zones[k]) by {
            assert(p1.w.zones.contains_key(k));
        }
    }
}

proof fn lemma_eqv_cleanup_fold(s1: TickState, s2: TickState, ids: Seq<int>)
    requires
        world_eqv(s1.w, s2.w),
        s1.rng == s2.rng,
        s1.processed == s2.processed,
        s1.events == s2.events,
    ensures
        world_eqv(cleanup_fold(s1, ids).w, cleanup_fold(s2, ids).w),
        cleanup_fold(s1, ids).rng == cleanup_fold(s2, ids).rng,
        cleanup_fold(s1, ids).processed == cleanup_fold(s2, ids).processed,
        cleanup_fold(s1, ids).events == cleanup_fold(s2, ids).events,
    decreases ids.len(),
{
    if ids.len() > 0 {
        lemma_eqv_cleanup_fold(s1, s2, ids.drop_last());
        let p1 = cleanup_fold(s1, ids.drop_last());
        let p2 = cleanup_fold(s2, ids.drop_last());
        lemma_eqv_without(p1.w, p2.w, crate::types::EntityId(ids.last() as u64));
    }
}

/// A tick from worlds that agree up to text gives worlds that agree up to
/// text, the same random state and the same events.
pub proof fn lemma_eqv_tick<R: IRng>(seed: RngSeed, rng: u64, a: WorldView, b: WorldView)
    requires
        world_eqv(a, b),
    ensures
        world_eqv(spec_tick::<R>(seed, rng, a).0, spec_tick::<R>(seed, rng, b).0),
        spec_tick::<R>(seed, rng, a).1 == spec_tick::<R>(seed, rng, b).1,
        spec_tick::<R>(seed, rng, a).2 == spec_tick::<R>(seed, rng, b).2,
{
    let a1 = a.advanced();
    let b1 = b.advanced();
    assert(world_eqv(a1, b1)) by {
        assert forall|k: int| #[trigger] a1.zones.contains_key(k) implies zone_eqv(a1.zones[k], b1.zones[k]) by {
            assert(a.zones.contains_key(k));
        }
    }
    assert(active_keys(a1) == active_keys(b1));
    let s1 = TickState { w: a1, rng, events: seq![], processed: 0 };
    let s2 = TickState { w: b1, rng, events: seq![], processed: 0 };
    lemma_eqv_rules_fold::<R>(seed, s1, s2, active_keys(a1));
    let t1 = rules_fold::<R>(seed, s1, active_keys(a1));
    let t2 = rules_fold::<R>(seed, s2, active_keys(b1));
    assert(dead_keys(t1.w) == dead_keys(t2.w));
    lemma_eqv_cleanup_fold(t1, t2, dead_keys(t1.w));
    let u1 = if a1.current_tick.0 % 100 == 0 { cleanup_fold(t1, dead_keys(t1.w)) } else { t1 };
    let u2 = if b1.current_tick.0 % 100 == 0 { cleanup_fold(t2, dead_keys(t2.w)) } else { t2 };
    let w1 = WorldView { rng_state: u1.rng, ..u1.w };
    let w2 = WorldView { rng_state: u2.rng, ..u2.w };
    assert(world_eqv(w1, w2)) by {
        assert forall|k: int| #[trigger] w1.zones.contains_key(k) implies zone_eqv(w1.zones[k], w2.zones[k]) by {
            assert(u1.w.zones.contains_key(k));
        }
    }
}

/// Several ticks likewise.
pub proof fn lemma_eqv_ticks<R: IRng>(seed: RngSeed, rng: u64, a: WorldView, b: WorldView, n: nat)
    requires
        world_eqv(a, b),
    ensures
        world_eqv(spec_ticks::<R>(seed, rng, a, n).0, spec_ticks::<R>(seed, rng, b, n).0),
        spec_ticks::<R>(seed, rng, a, n).1 == spec_ticks::<R>(seed, rng, b, n).1,
        spec_ticks::<R>(seed, rng, a, n).2 == spec_ticks::<R>(seed, rng, b, n).2,
    decreases n,
{
    if n > 0 {
        lemma_eqv_ticks::<R>(seed, rng, a, b, (n - 1) as nat);
        let (a1, r1, e1) = spec_ticks::<R>(seed, rng, a, (n - 1) as nat);
        let (b1, _, _) = spec_ticks::<R>(seed, rng, b, (n - 1) as nat);
        lemma_eqv_tick::<R>(seed, r1, a1, b1);
    }
}

/// A command other than world creation, on states that agree up to text,
/// succeeds on both or fails on both, and its successes agree up to text.
pub proof fn lemma_eqv_command<R: IRng>(s1: SimState, s2: SimState, cmd: SimCommand)
    requires
        state_eqv(s1, s2),
        s1.world is Some,
        !(cmd is CreateWorld),
    ensures
        spec_world_command::<R>(s1, s1.world->Some_0, cmd) is Ok <==> spec_world_command::<R>(s2, s2.world->Some_0, cmd) is Ok,
        spec_world_command::<R>(s1, s1.world->Some_0, cmd) matches Ok((t1, e1)) ==> state_eqv(
            t1,
            spec_world_command::<R>(s2, s2.world->Some_0, cmd)->Ok_0.0,
        ),
{
    let a = s1.world->Some_0;
    let b = s2.world->Some_0;
    match cmd {
        SimCommand::Tick => {
            lemma_eqv_tick::<R>(s1.seed, s1.rng, a, b);
        },
        SimCommand::TickN(n) => {
            lemma_eqv_ticks::<R>(s1.seed, s1.rng, a, b, n as nat);
        },
        SimCommand::SpawnEntity(c) => {
            let id = crate::types::EntityId(a.next_entity_id);
            let e = crate::world::Entity {
                id,
                kind: c.kind,
                state: crate::types::EntityState::Active,
                position: c.position,
                created_at: a.current_tick,
                properties: c.properties,
            };
            let a1 = WorldView { next_entity_id: (a.next_entity_id + 1) as u64, ..a };
            let b1 = WorldView { next_entity_id: (b.next_entity_id + 1) as u64, ..b };
            assert(world_eqv(a1, b1)) by {
                assert forall|k: int| #[trigger] a1.zones.contains_key(k) implies zone_eqv(a1.zones[k], b1.zones[k]) by {
                    assert(a.zones.contains_key(k));
                }
            }
            lemma_eqv_with(a1, b1, e);
        },
        SimCommand::DespawnEntity(id) => {
            lemma_eqv_without(a, b, id);
        },
        SimCommand::CreateZone(c) => {
            let z = ZoneView { id: c.zone_id, name: c.name, loaded: true, entities: Seq::empty() };
            let a2 = WorldView { zones: a.zones.insert(c.zone_id.0 as int, z), ..a };
            let b2 = WorldView { zones: b.zones.insert(c.zone_id.0 as int, z), ..b };
            assert(a2.zones.dom() =~= b2.zones.dom());
            assert forall|k: int| #[trigger] a2.zones.contains_key(k) implies zone_eqv(a2.zones[k], b2.zones[k]) by {
                if k != c.zone_id.0 as int {
                    assert(a.zones.contains_key(k));
                }
            }
        },
        SimCommand::CreateWorld(_) => {},
    }
}

/// Two worlds created by the same command agree up to text.
pub proof fn lemma_created_eqv(a: WorldView, b: WorldView, c: crate::commands::CreateWorldCmd)
    requires
        crate::sim::created_world(a, c),
        crate::sim::created_world(b, c),
    ensures
        world_eqv(a, b),
{
    assert(a.entities =~= b.entities);
    assert(a.zones.dom() =~= b.zones.dom());
    assert(a.zones[0].entities =~= b.zones[0].entities);
    assert forall|k: int| #[trigger] a.zones.contains_key(k) implies zone_eqv(a.zones[k], b.zones[k]) by {
        assert(a.zones.dom().contains(k));
        assert(k == 0);
    }
}

} // verus!
