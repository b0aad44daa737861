//! The zone entity index: every world the simulation produces lists each
//! entity exactly once, in the zone where it stands.
use vstd::prelude::*;

use crate::laws::coherent;
use crate::replay::set_entity;
use crate::sim::{cleanup_fold, rule_step, rules_fold, IRng, TickState};
use crate::types::{EntityId, RngSeed};
use crate::world::{remove_all, zone_with_entity, Entity, WorldView, ZoneView};

verus! {

/// No id occurs twice.
pub open spec fn no_dups(s: Seq<EntityId>) -> bool {
    forall|i: int, j: int| 0 <= i < j < s.len() ==> s[i] != s[j]
}

/// An id listed by zone `z` names an entity that stands in `z`.
pub open spec fn listed_ok(w: WorldView, z: int, id: EntityId) -> bool {
    &&& w.entities.contains_key(id.0 as int)
    &&& w.entities[id.0 as int].position.zone.0 == z
}

/// The zone entity index agrees with the entities: zones are keyed by id,
/// each zone lists exactly the entities standing in it, once each, every
/// entity stands in an existing zone, and entity ids are positive.
pub open spec fn indexed(w: WorldView) -> bool {
    &&& w.next_entity_id > 0
    &&& forall|k: int| #[trigger] w.entities.contains_key(k) ==> {
        &&& 0 < k
        &&& w.zones.contains_key(w.entities[k].position.zone.0 as int)
        &&& w.zones[w.entities[k].position.zone.0 as int].entities.contains(EntityId(k as u64))
    }
    &&& forall|z: int| #[trigger] w.zones.contains_key(z) ==> w.zones[z].id.0 == z && no_dups(w.zones[z].entities)
    &&& forall|z: int, i: int|
        #![trigger w.zones[z].entities[i]]
        w.zones.contains_key(z) && 0 <= i < w.zones[z].entities.len() ==> listed_ok(w, z, w.zones[z].entities[i])
}

proof fn lemma_remove_all(s: Seq<EntityId>, id: EntityId)
    ensures
        forall|x: EntityId| #[trigger] remove_all(s, id).contains(x) <==> (s.contains(x) && x != id),
        no_dups(s) ==> no_dups(remove_all(s, id)),
    decreases s.len(),
{
    if s.len() > 0 {
        let p = s.drop_last();
        lemma_remove_all(p, id);
        let r = remove_all(p, id);
        assert forall|x: EntityId| #[trigger] remove_all(s, id).contains(x) <==> (s.contains(x) && x != id) by {
            if s.contains(x) && x != id {
                let i = choose|i: int| 0 <= i < s.len() && s[i] == x;
                if i < s.len() - 1 {
                    assert(p[i] == x);
                    assert(p.contains(x));
                    assert(r.contains(x));
                    let j = choose|j: int| 0 <= j < r.len() && r[j] == x;
                    if s.last() != id {
                        assert(r.push(s.last())[j] == x);
                    }
                } else {
                    assert(r.push(s.last())[r.len() as int] == x);
                }
            }
            if remove_all(s, id).contains(x) {
                let j = choose|j: int| 0 <= j < remove_all(s, id).len() && remove_all(s, id)[j] == x;
                if s.last() != id && j == r.len() {
                    assert(s[s.len() - 1] == x);
                } else {
                    if s.last() != id {
                        assert(r.push(s.last())[j] == r[j]);
                    }
                    assert(r.contains(x));
                    let i = choose|i: int| 0 <= i < p.len() && p[i] == x;
                    assert(s[i] == x);
                }
            }
        }
        if no_dups(s) {
            assert(no_dups(p));
            if s.last() != id {
                assert(!p.contains(s.last())) by {
                    if p.contains(s.last()) {
                        let i = choose|i: int| 0 <= i < p.len() && p[i] == s.last();
                        assert(s[i] == s[s.len() - 1]);
                    }
                }
                assert(!r.contains(s.last()));
                assert forall|i: int, j: int| 0 <= i < j < r.push(s.last()).len() implies r.push(s.last())[i] != r.push(
                    s.last(),
                )[j] by {
                    if j == r.len() {
                        assert(r[i] != s.last());
                    }
                }
            }
        }
    }
}

/// Moving the clock or checkpointing the random state leaves the index as it is.
pub proof fn lemma_indexed_same_tables(w: WorldView, w2: WorldView)
    requires
        indexed(w),
        w2.entities == w.entities,
        w2.zones == w.zones,
        w2.next_entity_id == w.next_entity_id,
    ensures
        indexed(w2),
{
    assert forall|z: int, i: int| w2.zones.contains_key(z) && 0 <= i < w2.zones[z].entities.len() implies listed_ok(
        w2,
        z,
        #[trigger] w2.zones[z].entities[i],
    ) by {
        assert(listed_ok(w, z, w.zones[z].entities[i]));
    }
}

/// Rewriting an entity in place, where it stands, keeps the index.
proof fn lemma_indexed_set_entity(w: WorldView, e: Entity)
    requires
        indexed(w),
        w.entities.contains_key(e.id.0 as int),
        w.entities[e.id.0 as int].position == e.position,
    ensures
        indexed(set_entity(w, e)),
{
    let w2 = set_entity(w, e);
    assert forall|k: int| #[trigger] w2.entities.contains_key(k) implies {
        &&& 0 < k
        &&& w2.zones.contains_key(w2.entities[k].position.zone.0 as int)
        &&& w2.zones[w2.entities[k].position.zone.0 as int].entities.contains(EntityId(k as u64))
    } by {
        assert(w.entities.contains_key(k));
    }
    assert forall|z: int, i: int| w2.zones.contains_key(z) && 0 <= i < w2.zones[z].entities.len() implies listed_ok(
        w2,
        z,
        #[trigger] w2.zones[z].entities[i],
    ) by {
        assert(listed_ok(w, z, w.zones[z].entities[i]));
    }
}

/// Removing an entity, and its id from its zone's list, keeps the index.
pub proof fn lemma_indexed_without(w: WorldView, id: EntityId)
    requires
        indexed(w),
        coherent(w),
    ensures
        indexed(w.without_entity(id)),
        coherent(w.without_entity(id)),
{
    let k0 = id.0 as int;
    if w.entities.contains_key(k0) {
        let zk = w.entities[k0].position.zone.0 as int;
        let w2 = w.without_entity(id);
        lemma_remove_all(w.zones[zk].entities, id);
        assert forall|k: int| #[trigger] w2.entities.contains_key(k) implies {
            &&& 0 < k
            &&& w2.zones.contains_key(w2.entities[k].position.zone.0 as int)
            &&& w2.zones[w2.entities[k].position.zone.0 as int].entities.contains(EntityId(k as u64))
        } by {
            assert(w.entities.contains_key(k));
            assert(k != k0);
            assert(w.entities[k].id.0 == k);
            assert(EntityId(k as u64) != id);
        }
        assert forall|z: int| #[trigger] w2.zones.contains_key(z) implies w2.zones[z].id.0 == z && no_dups(w2.zones[z].entities) by {
            assert(w.zones.contains_key(z));
        }
        assert forall|z: int, i: int| w2.zones.contains_key(z) && 0 <= i < w2.zones[z].entities.len() implies listed_ok(
            w2,
            z,
            #[trigger] w2.zones[z].entities[i],
        ) by {
            let x = w2.zones[z].entities[i];
            if z == zk {
                assert(w2.zones[z].entities.contains(x));
                assert(w.zones[z].entities.contains(x) && x != id);
                let j = choose|j: int| 0 <= j < w.zones[z].entities.len() && w.zones[z].entities[j] == x;
                assert(listed_ok(w, z, w.zones[z].entities[j]));
                assert(x.0 as int != k0);
            } else {
                assert(listed_ok(w, z, w.zones[z].entities[i]));
                assert(w.zones[z].entities[i] == x);
                assert(x.0 as int != k0);
            }
        }
        assert forall|k: int| #[trigger] w2.entities.contains_key(k) implies w2.entities[k].id.0 == k && k < w2.next_entity_id by {
            assert(w.entities.contains_key(k));
        }
    }
}

/// Adding a fresh entity in an existing zone keeps the index.
pub proof fn lemma_indexed_with_new(w: WorldView, e: Entity)
    requires
        indexed(w),
        coherent(w),
        e.id.0 == w.next_entity_id,
        w.next_entity_id < u64::MAX,
        w.zones.contains_key(e.position.zone.0 as int),
    ensures
        indexed(WorldView { next_entity_id: (w.next_entity_id + 1) as u64, ..w }.with_entity(e)),
{
    let w1 = WorldView { next_entity_id: (w.next_entity_id + 1) as u64, ..w };
    let w2 = w1.with_entity(e);
    let k0 = e.id.0 as int;
    let zk = e.position.zone.0 as int;
    assert(!w.entities.contains_key(k0));
    let old_list = w.zones[zk].entities;
    assert(!old_list.contains(e.id)) by {
        if old_list.contains(e.id) {
            let j = choose|j: int| 0 <= j < old_list.len() && old_list[j] == e.id;
            assert(listed_ok(w, zk, w.zones[zk].entities[j]));
        }
    }
    let new_list = old_list.push(e.id);
    assert(w2.zones[zk].entities == new_list);
    assert forall|k: int| #[trigger] w2.entities.contains_key(k) implies {
        &&& 0 < k
        &&& w2.zones.contains_key(w2.entities[k].position.zone.0 as int)
        &&& w2.zones[w2.entities[k].position.zone.0 as int].entities.contains(EntityId(k as u64))
    } by {
        if k == k0 {
            assert(new_list[old_list.len() as int] == e.id);
        } else {
            assert(w.entities.contains_key(k));
            let z = w.entities[k].position.zone.0 as int;
            if z == zk {
                let j = choose|j: int| 0 <= j < old_list.len() && old_list[j] == EntityId(k as u64);
                assert(new_list[j] == EntityId(k as u64));
            }
        }
    }
    assert forall|z: int| #[trigger] w2.zones.contains_key(z) implies w2.zones[z].id.0 == z && no_dups(w2.zones[z].entities) by {
        assert(w.zones.contains_key(z));
        if z == zk {
            assert forall|i: int, j: int| 0 <= i < j < new_list.len() implies new_list[i] != new_list[j] by {
                if j == old_list.len() {
                    assert(old_list[i] != e.id) by {
                        if old_list[i] == e.id {
                            assert(old_list.contains(e.id));
                        }
                    }
                }
            }
        }
    }
    assert forall|z: int, i: int| w2.zones.contains_key(z) && 0 <= i < w2.zones[z].entities.len() implies listed_ok(
        w2,
        z,
        #[trigger] w2.zones[z].entities[i],
    ) by {
        if z == zk && i == old_list.len() {
        } else {
            assert(listed_ok(w, z, w.zones[z].entities[i]));
            let x = w.zones[z].entities[i];
            assert(x.0 as int != k0);
        }
    }
}

/// Adding a new, empty zone keeps the index.
pub proof fn lemma_indexed_new_zone(w: WorldView, z0: int, zv: ZoneView)
    requires
        indexed(w),
        !w.zones.contains_key(z0),
        zv.id.0 == z0,
        zv.entities.len() == 0,
    ensures
        indexed(WorldView { zones: w.zones.insert(z0, zv), ..w }),
{
    let w2 = WorldView { zones: w.zones.insert(z0, zv), ..w };
    assert forall|z: int, i: int| w2.zones.contains_key(z) && 0 <= i < w2.zones[z].entities.len() implies listed_ok(
        w2,
        z,
        #[trigger] w2.zones[z].entities[i],
    ) by {
        assert(listed_ok(w, z, w.zones[z].entities[i]));
    }
}

/// One entity's rules keep the index (they change an entity where it
/// stands, or nothing).
proof fn lemma_indexed_rule_step<R: IRng>(seed: RngSeed, st: TickState, id: int)
    requires
        indexed(st.w),
        coherent(st.w),
    ensures
        indexed(rule_step::<R>(seed, st, id).w),
        coherent(rule_step::<R>(seed, st, id).w),
        rule_step::<R>(seed, st, id).w.next_entity_id == st.w.next_entity_id,
        rule_step::<R>(seed, st, id).w.current_tick == st.w.current_tick,
{
    let st2 = rule_step::<R>(seed, st, id);
    if st.w.entities.contains_key(id) {
        let e = st.w.entities[id];
        assert(e.id.0 == id);
        if st2.w != st.w {
            let e2 = st2.w.entities[id];
            assert(st2.w == set_entity(st.w, e2));
            assert(e2.id == e.id && e2.position == e.position);
            lemma_indexed_set_entity(st.w, e2);
            assert forall|k: int| #[trigger] st2.w.entities.contains_key(k) implies st2.w.entities[k].id.0 == k && k
                < st2.w.next_entity_id by {
                assert(st.w.entities.contains_key(k));
            }
        }
    }
}

proof fn lemma_indexed_rules_fold<R: IRng>(seed: RngSeed, st: TickState, ids: Seq<int>)
    requires
        indexed(st.w),
        coherent(st.w),
    ensures
        indexed(rules_fold::<R>(seed, st, ids).w),
        coherent(rules_fold::<R>(seed, st, ids).w),
        rules_fold::<R>(seed, st, ids).w.next_entity_id == st.w.next_entity_id,
        rules_fold::<R>(seed, st, ids).w.current_tick == st.w.current_tick,
    decreases ids.len(),
{
    if ids.len() > 0 {
        lemma_indexed_rules_fold::<R>(seed, st, ids.drop_last());
        lemma_indexed_rule_step::<R>(seed, rules_fold::<R>(seed, st, ids.drop_last()), ids.last());
    }
}

proof fn lemma_indexed_cleanup_fold(st: TickState, ids: Seq<int>)
    requires
        indexed(st.w),
        coherent(st.w),
    ensures
        indexed(cleanup_fold(st, ids).w),
        coherent(cleanup_fold(st, ids).w),
        cleanup_fold(st, ids).w.next_entity_id == st.w.next_entity_id,
        cleanup_fold(st, ids).w.current_tick == st.w.current_tick,
    decreases ids.len(),
{
    if ids.len() > 0 {
        lemma_indexed_cleanup_fold(st, ids.drop_last());
        let s1 = cleanup_fold(st, ids.drop_last());
        lemma_indexed_without(s1.w, EntityId(ids.last() as u64));
    }
}

/// A tick keeps the index.
pub proof fn lemma_indexed_tick<R: IRng>(seed: RngSeed, rng: u64, w: WorldView)
    requires
        indexed(w),
        coherent(w),
    ensures
        indexed(crate::sim::spec_tick::<R>(seed, rng, w).0),
        coherent(crate::sim::spec_tick::<R>(seed, rng, w).0),
        crate::sim::spec_tick::<R>(seed, rng, w).0.next_entity_id == w.next_entity_id,
{
    let w1 = w.advanced();
    lemma_indexed_same_tables(w, w1);
    assert(coherent(w1)) by {
        assert forall|k: int| #[trigger] w1.entities.contains_key(k) implies w1.entities[k].id.0 == k && k < w1.next_entity_id by {
            assert(w.entities.contains_key(k));
        }
    }
    let st0 = TickState { w: w1, rng, events: seq![], processed: 0 };
    let ids = crate::sim::active_keys(w1);
    lemma_indexed_rules_fold::<R>(seed, st0, ids);
    let st1 = rules_fold::<R>(seed, st0, ids);
    lemma_indexed_cleanup_fold(st1, crate::sim::dead_keys(st1.w));
    let t = w1.current_tick;
    let st2 = if t.0 % 100 == 0 { cleanup_fold(st1, crate::sim::dead_keys(st1.w)) } else { st1 };
    let w3 = WorldView { rng_state: st2.rng, ..st2.w };
    lemma_indexed_same_tables(st2.w, w3);
    assert(coherent(w3)) by {
        assert forall|k: int| #[trigger] w3.entities.contains_key(k) implies w3.entities[k].id.0 == k && k < w3.next_entity_id by {
            assert(st2.w.entities.contains_key(k));
        }
    }
}

/// Several ticks keep the index.
pub proof fn lemma_indexed_ticks<R: IRng>(seed: RngSeed, rng: u64, w: WorldView, n: nat)
    requires
        indexed(w),
        coherent(w),
    ensures
        indexed(crate::sim::spec_ticks::<R>(seed, rng, w, n).0),
        coherent(crate::sim::spec_ticks::<R>(seed, rng, w, n).0),
        crate::sim::spec_ticks::<R>(seed, rng, w, n).0.next_entity_id == w.next_entity_id,
    decreases n,
{
    if n > 0 {
        lemma_indexed_ticks::<R>(seed, rng, w, (n - 1) as nat);
        let (w1, r1, e1) = crate::sim::spec_ticks::<R>(seed, rng, w, (n - 1) as nat);
        lemma_indexed_tick::<R>(seed, r1, w1);
    }
}

/// The simulation keeps the zone entity index: a created world is indexed
/// and coherent, and a command that succeeds on an indexed, coherent world
/// (with entity ids left to allocate) leaves it so.
pub proof fn law_commands_keep_index<R: IRng>(
    s: crate::sim::SimState,
    cmd: crate::commands::SimCommand,
    s2: crate::sim::SimState,
    evs: Seq<crate::events::SimEvent>,
)
    requires
        crate::sim::step_ok::<R>(s, cmd, s2, evs),
        s.world matches Some(w) ==> coherent(w) && indexed(w) && w.next_entity_id < u64::MAX,
    ensures
        s2.world matches Some(w2) && indexed(w2) && coherent(w2),
{
    match cmd {
        crate::commands::SimCommand::CreateWorld(c) => {
            let v = s2.world->Some_0;
            assert(crate::sim::created_world(v, c));
            assert forall|z: int, i: int| v.zones.contains_key(z) && 0 <= i < v.zones[z].entities.len() implies listed_ok(
                v,
                z,
                #[trigger] v.zones[z].entities[i],
            ) by {
                assert(v.zones.dom().contains(z));
                assert(z == 0);
            }
            assert forall|z: int| #[trigger] v.zones.contains_key(z) implies v.zones[z].id.0 == z && no_dups(v.zones[z].entities) by {
                assert(v.zones.dom().contains(z));
                assert(z == 0);
            }
        },
        crate::commands::SimCommand::Tick => {
            let w = s.world->Some_0;
            lemma_indexed_tick::<R>(s.seed, s.rng, w);
        },
        crate::commands::SimCommand::TickN(n) => {
            let w = s.world->Some_0;
            lemma_indexed_ticks::<R>(s.seed, s.rng, w, n as nat);
        },
        crate::commands::SimCommand::SpawnEntity(c) => {
            let w = s.world->Some_0;
            let id = EntityId(w.next_entity_id);
            let e = Entity {
                id,
                kind: c.kind,
                state: crate::types::EntityState::Active,
                position: c.position,
                created_at: w.current_tick,
                properties: c.properties,
            };
            lemma_indexed_with_new(w, e);
            let w2 = s2.world->Some_0;
            assert forall|k: int| #[trigger] w2.entities.contains_key(k) implies w2.entities[k].id.0 == k && k < w2.next_entity_id by {
                if k != w.next_entity_id as int {
                    assert(w.entities.contains_key(k));
                }
            }
        },
        crate::commands::SimCommand::DespawnEntity(id) => {
            let w = s.world->Some_0;
            lemma_indexed_without(w, id);
        },
        crate::commands::SimCommand::CreateZone(c) => {
            let w = s.world->Some_0;
            lemma_indexed_new_zone(
                w,
                c.zone_id.0 as int,
                ZoneView { id: c.zone_id, name: c.name, loaded: true, entities: Seq::empty() },
            );
        },
    }
}

} // verus!
