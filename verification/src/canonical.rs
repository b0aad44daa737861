//! The canonical encoding is faithful: equal canonical bytes mean equal
//! worlds, strings compared by their characters.
use vstd::prelude::*;

use crate::determinism::{
    canonical_bytes, entities_bytes, entity_bytes, ids_bytes, kind_byte, le32, le64, meta_bytes, opt_str_bytes,
    opt_u32_bytes, state_byte, str_bytes, utf8, zone_bytes, zones_bytes,
};
use crate::equivalence::{meta_eqv, opt_text, zone_eqv};
use crate::types::EntityId;
use crate::world::{Entity, World, ZoneView};

verus! {

/// Two entities that agree in every field, the name compared by its
/// characters.
pub open spec fn entity_eqv(a: Entity, b: Entity) -> bool {
    &&& a.id == b.id
    &&& a.kind == b.kind
    &&& a.state == b.state
    &&& a.position == b.position
    &&& a.created_at == b.created_at
    &&& opt_text(a.properties.name) == opt_text(b.properties.name)
    &&& a.properties.amount == b.properties.amount
    &&& a.properties.health == b.properties.health
}

/// A string whose UTF-8 length the encoding's length field can hold.
pub open spec fn str_fits(s: String) -> bool {
    utf8(s).len() <= usize::MAX
}

pub open spec fn opt_str_fits(o: Option<String>) -> bool {
    match o {
        Some(s) => str_fits(s),
        None => true,
    }
}

/// A world whose strings and tables the encoding's length fields can hold.
pub open spec fn encodable(w: World) -> bool {
    &&& str_fits(w.meta.world_id)
    &&& str_fits(w.meta.name)
    &&& w.entities@.len() <= usize::MAX
    &&& forall|i: int| 0 <= i < w.entities@.len() ==> opt_str_fits((#[trigger] w.entities@[i]).properties.name)
    &&& w.zones@.len() <= usize::MAX
    &&& forall|i: int| 0 <= i < w.zones@.len() ==> zone_fits(#[trigger] w.zone_views()[i])
}

/// Two worlds that agree in every persistent field, tables in their order,
/// strings compared by their characters.
pub open spec fn same_world(a: World, b: World) -> bool {
    &&& meta_eqv(a.meta, b.meta)
    &&& a.current_tick == b.current_tick
    &&& a.sim_time == b.sim_time
    &&& a.rng_state == b.rng_state
    &&& a.next_entity_id == b.next_entity_id
    &&& a.entities@.len() == b.entities@.len()
    &&& forall|i: int| 0 <= i < a.entities@.len() ==> entity_eqv(#[trigger] a.entities@[i], b.entities@[i])
    &&& a.zones@.len() == b.zones@.len()
    &&& forall|i: int| 0 <= i < a.zones@.len() ==> zone_eqv(#[trigger] a.zone_views()[i], b.zone_views()[i])
}

proof fn lemma_cancel(p1: Seq<u8>, r1: Seq<u8>, p2: Seq<u8>, r2: Seq<u8>)
    requires
        p1.len() == p2.len(),
        p1 + r1 == p2 + r2,
    ensures
        p1 == p2,
        r1 == r2,
{
    assert(p1 =~= (p1 + r1).subrange(0, p1.len() as int));
    assert(p2 =~= (p2 + r2).subrange(0, p2.len() as int));
    assert(r1 =~= (p1 + r1).subrange(p1.len() as int, (p1 + r1).len() as int));
    assert(r2 =~= (p2 + r2).subrange(p2.len() as int, (p2 + r2).len() as int));
}

proof fn lemma_le64(a: u64, r1: Seq<u8>, b: u64, r2: Seq<u8>)
    requires
        le64(a) + r1 == le64(b) + r2,
    ensures
        a == b,
        r1 == r2,
{
    vstd::bytes::lemma_auto_spec_u64_to_from_le_bytes();
    lemma_cancel(le64(a), r1, le64(b), r2);
}

proof fn lemma_le32(a: u32, r1: Seq<u8>, b: u32, r2: Seq<u8>)
    requires
        le32(a) + r1 == le32(b) + r2,
    ensures
        a == b,
        r1 == r2,
{
    vstd::bytes::lemma_auto_spec_u32_to_from_le_bytes();
    assert(le32(a).len() == 4);
    assert(le32(b).len() == 4);
    lemma_cancel(le32(a), r1, le32(b), r2);
}

proof fn lemma_byte(a: u8, r1: Seq<u8>, b: u8, r2: Seq<u8>)
    requires
        seq![a] + r1 == seq![b] + r2,
    ensures
        a == b,
        r1 == r2,
{
    lemma_cancel(seq![a], r1, seq![b], r2);
    assert(seq![a][0] == a);
}

proof fn lemma_str(s: String, r1: Seq<u8>, t: String, r2: Seq<u8>)
    requires
        str_fits(s),
        str_fits(t),
        str_bytes(s) + r1 == str_bytes(t) + r2,
    ensures
        s@ == t@,
        r1 == r2,
{
    let n1 = (utf8(s).len() as usize) as u64;
    let n2 = (utf8(t).len() as usize) as u64;
    assert(str_bytes(s) + r1 =~= le64(n1) + (utf8(s) + r1));
    assert(str_bytes(t) + r2 =~= le64(n2) + (utf8(t) + r2));
    lemma_le64(n1, utf8(s) + r1, n2, utf8(t) + r2);
    lemma_cancel(utf8(s), r1, utf8(t), r2);
    vstd::utf8::encode_utf8_decode_utf8(s@);
    vstd::utf8::encode_utf8_decode_utf8(t@);
}

proof fn lemma_opt_str(a: Option<String>, r1: Seq<u8>, b: Option<String>, r2: Seq<u8>)
    requires
        opt_str_fits(a),
        opt_str_fits(b),
        opt_str_bytes(a) + r1 == opt_str_bytes(b) + r2,
    ensures
        opt_text(a) == opt_text(b),
        r1 == r2,
{
    let ta: u8 = if a is Some { 1 } else { 0 };
    let tb: u8 = if b is Some { 1 } else { 0 };
    let ra = match a {
        Some(s) => str_bytes(s) + r1,
        None => r1,
    };
    let rb = match b {
        Some(s) => str_bytes(s) + r2,
        None => r2,
    };
    assert(opt_str_bytes(a) + r1 =~= seq![ta] + ra);
    assert(opt_str_bytes(b) + r2 =~= seq![tb] + rb);
    lemma_byte(ta, ra, tb, rb);
    if a is Some {
        lemma_str(a->Some_0, r1, b->Some_0, r2);
    }
}

proof fn lemma_opt_u32(a: Option<u32>, r1: Seq<u8>, b: Option<u32>, r2: Seq<u8>)
    requires
        opt_u32_bytes(a) + r1 == opt_u32_bytes(b) + r2,
    ensures
        a == b,
        r1 == r2,
{
    let ta: u8 = if a is Some { 1 } else { 0 };
    let tb: u8 = if b is Some { 1 } else { 0 };
    let ra = match a {
        Some(v) => le32(v) + r1,
        None => r1,
    };
    let rb = match b {
        Some(v) => le32(v) + r2,
        None => r2,
    };
    assert(opt_u32_bytes(a) + r1 =~= seq![ta] + ra);
    assert(opt_u32_bytes(b) + r2 =~= seq![tb] + rb);
    lemma_byte(ta, ra, tb, rb);
    if a is Some {
        lemma_le32(a->Some_0, r1, b->Some_0, r2);
    }
}

proof fn lemma_i32_bits(x: i32, y: i32)
    requires
        x as u32 == y as u32,
    ensures
        x == y,
{
    assert(x as u32 == y as u32 ==> x == y) by (bit_vector);
}

proof fn lemma_assoc(a: Seq<u8>, b: Seq<u8>, c: Seq<u8>)
    ensures
        (a + b) + c == a + (b + c),
{
    assert((a + b) + c =~= a + (b + c));
}

proof fn lemma_entity_assoc(a: Entity, r: Seq<u8>)
    ensures
        entity_bytes(a) + r == le64(a.id.0) + (le64(a.id.0) + (seq![kind_byte(a.kind)] + (seq![state_byte(a.state)] + (
        le32(a.position.zone.0) + (le32(a.position.pos.x as u32) + (le32(a.position.pos.y as u32) + (le32(
        a.position.pos.z as u32) + (le64(a.created_at.0) + (opt_str_bytes(a.properties.name) + (opt_u32_bytes(
        a.properties.amount) + (opt_u32_bytes(a.properties.health) + r))))))))))),
{
    let p1 = le64(a.id.0);
    let p2 = le64(a.id.0);
    let p3 = seq![kind_byte(a.kind)];
    let p4 = seq![state_byte(a.state)];
    let p5 = le32(a.position.zone.0);
    let p6 = le32(a.position.pos.x as u32);
    let p7 = le32(a.position.pos.y as u32);
    let p8 = le32(a.position.pos.z as u32);
    let p9 = le64(a.created_at.0);
    let p10 = opt_str_bytes(a.properties.name);
    let p11 = opt_u32_bytes(a.properties.amount);
    let p12 = opt_u32_bytes(a.properties.health);
    let t12 = p12 + r;
    let t11 = p11 + t12;
    let t10 = p10 + t11;
    let t9 = p9 + t10;
    let t8 = p8 + t9;
    let t7 = p7 + t8;
    let t6 = p6 + t7;
    let t5 = p5 + t6;
    let t4 = p4 + t5;
    let t3 = p3 + t4;
    let t2 = p2 + t3;
    let a1 = p1;
    let a2 = a1 + p2;
    let a3 = a2 + p3;
    let a4 = a3 + p4;
    let a5 = a4 + p5;
    let a6 = a5 + p6;
    let a7 = a6 + p7;
    let a8 = a7 + p8;
    let a9 = a8 + p9;
    let a10 = a9 + p10;
    let a11 = a10 + p11;
    let a12 = a11 + p12;
    assert(entity_bytes(a) == a12);
    lemma_assoc(a11, p12, r);
    lemma_assoc(a10, p11, t12);
    lemma_assoc(a9, p10, t11);
    lemma_assoc(a8, p9, t10);
    lemma_assoc(a7, p8, t9);
    lemma_assoc(a6, p7, t8);
    lemma_assoc(a5, p6, t7);
    lemma_assoc(a4, p5, t6);
    lemma_assoc(a3, p4, t5);
    lemma_assoc(a2, p3, t4);
    lemma_assoc(a1, p2, t3);
}

proof fn lemma_entity(a: Entity, r1: Seq<u8>, b: Entity, r2: Seq<u8>)
    requires
        opt_str_fits(a.properties.name),
        opt_str_fits(b.properties.name),
        entity_bytes(a) + r1 == entity_bytes(b) + r2,
    ensures
        entity_eqv(a, b),
        r1 == r2,
{
    let h1 = opt_u32_bytes(a.properties.health) + r1;
    let h2 = opt_u32_bytes(b.properties.health) + r2;
    let m1 = opt_u32_bytes(a.properties.amount) + h1;
    let m2 = opt_u32_bytes(b.properties.amount) + h2;
    let n1 = opt_str_bytes(a.properties.name) + m1;
    let n2 = opt_str_bytes(b.properties.name) + m2;
    let c1 = le64(a.created_at.0) + n1;
    let c2 = le64(b.created_at.0) + n2;
    let z1 = le32(a.position.pos.z as u32) + c1;
    let z2 = le32(b.position.pos.z as u32) + c2;
    let y1 = le32(a.position.pos.y as u32) + z1;
    let y2 = le32(b.position.pos.y as u32) + z2;
    let x1 = le32(a.position.pos.x as u32) + y1;
    let x2 = le32(b.position.pos.x as u32) + y2;
    let q1 = le32(a.position.zone.0) + x1;
    let q2 = le32(b.position.zone.0) + x2;
    let s1 = seq![state_byte(a.state)] + q1;
    let s2 = seq![state_byte(b.state)] + q2;
    let k1 = seq![kind_byte(a.kind)] + s1;
    let k2 = seq![kind_byte(b.kind)] + s2;
    let i1 = le64(a.id.0) + k1;
    let i2 = le64(b.id.0) + k2;
    lemma_entity_assoc(a, r1);
    lemma_entity_assoc(b, r2);
    lemma_le64(a.id.0, i1, b.id.0, i2);
    lemma_le64(a.id.0, k1, b.id.0, k2);
    lemma_byte(kind_byte(a.kind), s1, kind_byte(b.kind), s2);
    lemma_byte(state_byte(a.state), q1, state_byte(b.state), q2);
    lemma_le32(a.position.zone.0, x1, b.position.zone.0, x2);
    lemma_le32(a.position.pos.x as u32, y1, b.position.pos.x as u32, y2);
    lemma_le32(a.position.pos.y as u32, z1, b.position.pos.y as u32, z2);
    lemma_le32(a.position.pos.z as u32, c1, b.position.pos.z as u32, c2);
    lemma_i32_bits(a.position.pos.x, b.position.pos.x);
    lemma_i32_bits(a.position.pos.y, b.position.pos.y);
    lemma_i32_bits(a.position.pos.z, b.position.pos.z);
    lemma_le64(a.created_at.0, n1, b.created_at.0, n2);
    lemma_opt_str(a.properties.name, m1, b.properties.name, m2);
    lemma_opt_u32(a.properties.amount, h1, b.properties.amount, h2);
    lemma_opt_u32(a.properties.health, r1, b.properties.health, r2);
    assert(a.kind == b.kind);
    assert(a.state == b.state);
}

proof fn lemma_entities_front(s: Seq<Entity>)
    requires
        s.len() > 0,
    ensures
        entities_bytes(s) == entity_bytes(s[0]) + entities_bytes(s.subrange(1, s.len() as int)),
    decreases s.len(),
{
    let t = s.subrange(1, s.len() as int);
    if s.len() == 1 {
        assert(s.drop_last() =~= Seq::<Entity>::empty());
        assert(t =~= Seq::<Entity>::empty());
        assert(entities_bytes(s) =~= entity_bytes(s[0]) + entities_bytes(t));
    } else {
        let d = s.drop_last();
        lemma_entities_front(d);
        assert(d.subrange(1, d.len() as int) =~= t.drop_last());
        assert(t.last() == s.last());
        assert(d[0] == s[0]);
        lemma_assoc(entity_bytes(s[0]), entities_bytes(t.drop_last()), entity_bytes(s.last()));
    }
}

proof fn lemma_entities(s1: Seq<Entity>, r1: Seq<u8>, s2: Seq<Entity>, r2: Seq<u8>)
    requires
        s1.len() == s2.len(),
        forall|i: int| 0 <= i < s1.len() ==> opt_str_fits((#[trigger] s1[i]).properties.name),
        forall|i: int| 0 <= i < s2.len() ==> opt_str_fits((#[trigger] s2[i]).properties.name),
        entities_bytes(s1) + r1 == entities_bytes(s2) + r2,
    ensures
        forall|i: int| 0 <= i < s1.len() ==> entity_eqv(#[trigger] s1[i], s2[i]),
        r1 == r2,
    decreases s1.len(),
{
    if s1.len() == 0 {
        assert(entities_bytes(s1) + r1 =~= r1);
        assert(entities_bytes(s2) + r2 =~= r2);
    } else {
        let t1 = s1.subrange(1, s1.len() as int);
        let t2 = s2.subrange(1, s2.len() as int);
        lemma_entities_front(s1);
        lemma_entities_front(s2);
        lemma_assoc(entity_bytes(s1[0]), entities_bytes(t1), r1);
        lemma_assoc(entity_bytes(s2[0]), entities_bytes(t2), r2);
        lemma_entity(s1[0], entities_bytes(t1) + r1, s2[0], entities_bytes(t2) + r2);
        assert forall|i: int| 0 <= i < t1.len() implies opt_str_fits((#[trigger] t1[i]).properties.name) by {
            assert(t1[i] == s1[i + 1]);
        }
        assert forall|i: int| 0 <= i < t2.len() implies opt_str_fits((#[trigger] t2[i]).properties.name) by {
            assert(t2[i] == s2[i + 1]);
        }
        lemma_entities(t1, r1, t2, r2);
        assert forall|i: int| 0 <= i < s1.len() implies entity_eqv(#[trigger] s1[i], s2[i]) by {
            if i > 0 {
                assert(t1[i - 1] == s1[i]);
                assert(t2[i - 1] == s2[i]);
            }
        }
    }
}

proof fn lemma_ids_len(s: Seq<EntityId>)
    ensures
        ids_bytes(s).len() == 8 * s.len(),
    decreases s.len(),
{
    vstd::bytes::lemma_auto_spec_u64_to_from_le_bytes();
    if s.len() > 0 {
        lemma_ids_len(s.drop_last());
        assert(le64(s.last().0).len() == 8);
    }
}

proof fn lemma_ids(a: Seq<EntityId>, b: Seq<EntityId>)
    requires
        a.len() == b.len(),
        ids_bytes(a) == ids_bytes(b),
    ensures
        a == b,
    decreases a.len(),
{
    vstd::bytes::lemma_auto_spec_u64_to_from_le_bytes();
    if a.len() == 0 {
        assert(a =~= b);
    } else {
        lemma_ids_len(a.drop_last());
        lemma_ids_len(b.drop_last());
        assert(le64(a.last().0).len() == 8);
        assert(le64(b.last().0).len() == 8);
        lemma_cancel(ids_bytes(a.drop_last()), le64(a.last().0), ids_bytes(b.drop_last()), le64(b.last().0));
        lemma_ids(a.drop_last(), b.drop_last());
        assert(a.last() == b.last());
        assert(a =~= b.drop_last().push(b.last()));
        assert(b =~= b.drop_last().push(b.last()));
    }
}

proof fn lemma_zone_assoc(z: ZoneView, r: Seq<u8>)
    ensures
        zone_bytes(z) + r == le32(z.id.0) + (le32(z.id.0) + (opt_str_bytes(z.name) + (seq![if z.loaded { 1u8 } else { 0u8 }] + (
        le64(z.entities.len() as u64) + (ids_bytes(z.entities) + r))))),
{
    let p1 = le32(z.id.0);
    let p2 = le32(z.id.0);
    let p3 = opt_str_bytes(z.name);
    let p4 = seq![if z.loaded { 1u8 } else { 0u8 }];
    let p5 = le64(z.entities.len() as u64);
    let p6 = ids_bytes(z.entities);
    let t6 = p6 + r;
    let t5 = p5 + t6;
    let t4 = p4 + t5;
    let t3 = p3 + t4;
    let a2 = p1 + p2;
    let a3 = a2 + p3;
    let a4 = a3 + p4;
    let a5 = a4 + p5;
    assert(zone_bytes(z) == a5 + p6);
    lemma_assoc(a5, p6, r);
    lemma_assoc(a4, p5, t6);
    lemma_assoc(a3, p4, t5);
    lemma_assoc(a2, p3, t4);
    lemma_assoc(p1, p2, t3);
}

proof fn lemma_zone(a: ZoneView, r1: Seq<u8>, b: ZoneView, r2: Seq<u8>)
    requires
        opt_str_fits(a.name),
        opt_str_fits(b.name),
        a.entities.len() <= usize::MAX,
        b.entities.len() <= usize::MAX,
        zone_bytes(a) + r1 == zone_bytes(b) + r2,
    ensures
        zone_eqv(a, b),
        r1 == r2,
{
    let la: u8 = if a.loaded { 1u8 } else { 0u8 };
    let lb: u8 = if b.loaded { 1u8 } else { 0u8 };
    let e1 = ids_bytes(a.entities) + r1;
    let e2 = ids_bytes(b.entities) + r2;
    let n1 = le64(a.entities.len() as u64) + e1;
    let n2 = le64(b.entities.len() as u64) + e2;
    let o1 = seq![la] + n1;
    let o2 = seq![lb] + n2;
    let q1 = opt_str_bytes(a.name) + o1;
    let q2 = opt_str_bytes(b.name) + o2;
    let i1 = le32(a.id.0) + q1;
    let i2 = le32(b.id.0) + q2;
    lemma_zone_assoc(a, r1);
    lemma_zone_assoc(b, r2);
    lemma_le32(a.id.0, i1, b.id.0, i2);
    lemma_le32(a.id.0, q1, b.id.0, q2);
    lemma_opt_str(a.name, o1, b.name, o2);
    lemma_byte(la, n1, lb, n2);
    lemma_le64(a.entities.len() as u64, e1, b.entities.len() as u64, e2);
    lemma_ids_len(a.entities);
    lemma_ids_len(b.entities);
    lemma_cancel(ids_bytes(a.entities), r1, ids_bytes(b.entities), r2);
    lemma_ids(a.entities, b.entities);
}

proof fn lemma_zones_front(s: Seq<ZoneView>)
    requires
        s.len() > 0,
    ensures
        zones_bytes(s) == zone_bytes(s[0]) + zones_bytes(s.subrange(1, s.len() as int)),
    decreases s.len(),
{
    let t = s.subrange(1, s.len() as int);
    if s.len() == 1 {
        assert(s.drop_last() =~= Seq::<ZoneView>::empty());
        assert(t =~= Seq::<ZoneView>::empty());
        assert(zones_bytes(s) =~= zone_bytes(s[0]) + zones_bytes(t));
    } else {
        let d = s.drop_last();
        lemma_zones_front(d);
        assert(d.subrange(1, d.len() as int) =~= t.drop_last());
        assert(t.last() == s.last());
        assert(d[0] == s[0]);
        lemma_assoc(zone_bytes(s[0]), zones_bytes(t.drop_last()), zone_bytes(s.last()));
    }
}

pub open spec fn zone_fits(z: ZoneView) -> bool {
    opt_str_fits(z.name) && z.entities.len() <= usize::MAX
}

proof fn lemma_zones(s1: Seq<ZoneView>, r1: Seq<u8>, s2: Seq<ZoneView>, r2: Seq<u8>)
    requires
        s1.len() == s2.len(),
        forall|i: int| 0 <= i < s1.len() ==> zone_fits(#[trigger] s1[i]),
        forall|i: int| 0 <= i < s2.len() ==> zone_fits(#[trigger] s2[i]),
        zones_bytes(s1) + r1 == zones_bytes(s2) + r2,
    ensures
        forall|i: int| 0 <= i < s1.len() ==> zone_eqv(#[trigger] s1[i], s2[i]),
        r1 == r2,
    decreases s1.len(),
{
    if s1.len() == 0 {
        assert(zones_bytes(s1) + r1 =~= r1);
        assert(zones_bytes(s2) + r2 =~= r2);
    } else {
        let t1 = s1.subrange(1, s1.len() as int);
        let t2 = s2.subrange(1, s2.len() as int);
        lemma_zones_front(s1);
        lemma_zones_front(s2);
        lemma_assoc(zone_bytes(s1[0]), zones_bytes(t1), r1);
        lemma_assoc(zone_bytes(s2[0]), zones_bytes(t2), r2);
        assert(zone_fits(s1[0]) && zone_fits(s2[0]));
        lemma_zone(s1[0], zones_bytes(t1) + r1, s2[0], zones_bytes(t2) + r2);
        assert forall|i: int| 0 <= i < t1.len() implies zone_fits(#[trigger] t1[i]) by {
            assert(t1[i] == s1[i + 1]);
        }
        assert forall|i: int| 0 <= i < t2.len() implies zone_fits(#[trigger] t2[i]) by {
            assert(t2[i] == s2[i + 1]);
        }
        lemma_zones(t1, r1, t2, r2);
        assert forall|i: int| 0 <= i < s1.len() implies zone_eqv(#[trigger] s1[i], s2[i]) by {
            if i > 0 {
                assert(t1[i - 1] == s1[i]);
                assert(t2[i - 1] == s2[i]);
            }
        }
    }
}

proof fn lemma_meta_assoc(m: crate::world::WorldMeta, r: Seq<u8>)
    ensures
        meta_bytes(m) + r == str_bytes(m.world_id) + (str_bytes(m.name) + (le64(m.seed.0) + (le64(m.current_tick.0) + (le64(
        m.sim_time.units) + (le64(m.created_tick.0) + (le64(m.snapshot_tick.0) + (le64(m.last_event_id.0) + (le32(
        m.format_version) + r)))))))),
{
    let p1 = str_bytes(m.world_id);
    let p2 = str_bytes(m.name);
    let p3 = le64(m.seed.0);
    let p4 = le64(m.current_tick.0);
    let p5 = le64(m.sim_time.units);
    let p6 = le64(m.created_tick.0);
    let p7 = le64(m.snapshot_tick.0);
    let p8 = le64(m.last_event_id.0);
    let p9 = le32(m.format_version);
    let t9 = p9 + r;
    let t8 = p8 + t9;
    let t7 = p7 + t8;
    let t6 = p6 + t7;
    let t5 = p5 + t6;
    let t4 = p4 + t5;
    let t3 = p3 + t4;
    let a2 = p1 + p2;
    let a3 = a2 + p3;
    let a4 = a3 + p4;
    let a5 = a4 + p5;
    let a6 = a5 + p6;
    let a7 = a6 + p7;
    let a8 = a7 + p8;
    assert(meta_bytes(m) == a8 + p9);
    lemma_assoc(a8, p9, r);
    lemma_assoc(a7, p8, t9);
    lemma_assoc(a6, p7, t8);
    lemma_assoc(a5, p6, t7);
    lemma_assoc(a4, p5, t6);
    lemma_assoc(a3, p4, t5);
    lemma_assoc(a2, p3, t4);
    lemma_assoc(p1, p2, t3);
}

proof fn lemma_canonical_assoc(w: World)
    ensures
        canonical_bytes(w) == meta_bytes(w.meta) + (le64(w.current_tick.0) + (le64(w.sim_time.units) + (le64(w.rng_state) + (
        le64(w.next_entity_id) + (le64(w.entities@.len() as u64) + (entities_bytes(w.entities@) + (le64(
        w.zones@.len() as u64) + zones_bytes(w.zone_views())))))))),
{
    let p0 = meta_bytes(w.meta);
    let p1 = le64(w.current_tick.0);
    let p2 = le64(w.sim_time.units);
    let p3 = le64(w.rng_state);
    let p4 = le64(w.next_entity_id);
    let p5 = le64(w.entities@.len() as u64);
    let p6 = entities_bytes(w.entities@);
    let p7 = le64(w.zones@.len() as u64);
    let p8 = zones_bytes(w.zone_views());
    let t7 = p7 + p8;
    let t6 = p6 + t7;
    let t5 = p5 + t6;
    let t4 = p4 + t5;
    let t3 = p3 + t4;
    let t2 = p2 + t3;
    let a1 = p0 + p1;
    let a2 = a1 + p2;
    let a3 = a2 + p3;
    let a4 = a3 + p4;
    let a5 = a4 + p5;
    let a6 = a5 + p6;
    assert(canonical_bytes(w) == a6 + p7 + p8);
    lemma_assoc(a6, p7, p8);
    lemma_assoc(a5, p6, t7);
    lemma_assoc(a4, p5, t6);
    lemma_assoc(a3, p4, t5);
    lemma_assoc(a2, p3, t4);
    lemma_assoc(a1, p2, t3);
    lemma_assoc(p0, p1, t2);
}

/// The canonical encoding determines the world: two worlds with the same
/// canonical bytes, hence fed identically to the state hasher, agree in
/// every persistent field (metadata with its recovery cursors, clocks,
/// random state, entity counter, the entity table and the zone table with
/// their order and each zone's entity index), strings compared by their
/// characters.
pub proof fn law_canonical_bytes_determine_world(w1: World, w2: World)
    requires
        encodable(w1),
        encodable(w2),
        canonical_bytes(w1) == canonical_bytes(w2),
    ensures
        same_world(w1, w2),
{
    let m1 = w1.meta;
    let m2 = w2.meta;
    let z1 = zones_bytes(w1.zone_views());
    let z2 = zones_bytes(w2.zone_views());
    let y1 = le64(w1.zones@.len() as u64) + z1;
    let y2 = le64(w2.zones@.len() as u64) + z2;
    let e1 = entities_bytes(w1.entities@) + y1;
    let e2 = entities_bytes(w2.entities@) + y2;
    let c1 = le64(w1.entities@.len() as u64) + e1;
    let c2 = le64(w2.entities@.len() as u64) + e2;
    let n1 = le64(w1.next_entity_id) + c1;
    let n2 = le64(w2.next_entity_id) + c2;
    let g1 = le64(w1.rng_state) + n1;
    let g2 = le64(w2.rng_state) + n2;
    let s1 = le64(w1.sim_time.units) + g1;
    let s2 = le64(w2.sim_time.units) + g2;
    let k1 = le64(w1.current_tick.0) + s1;
    let k2 = le64(w2.current_tick.0) + s2;
    lemma_canonical_assoc(w1);
    lemma_canonical_assoc(w2);
    let f1 = le32(m1.format_version) + k1;
    let f2 = le32(m2.format_version) + k2;
    let l1 = le64(m1.last_event_id.0) + f1;
    let l2 = le64(m2.last_event_id.0) + f2;
    let p1 = le64(m1.snapshot_tick.0) + l1;
    let p2 = le64(m2.snapshot_tick.0) + l2;
    let q1 = le64(m1.created_tick.0) + p1;
    let q2 = le64(m2.created_tick.0) + p2;
    let u1 = le64(m1.sim_time.units) + q1;
    let u2 = le64(m2.sim_time.units) + q2;
    let v1 = le64(m1.current_tick.0) + u1;
    let v2 = le64(m2.current_tick.0) + u2;
    let d1 = le64(m1.seed.0) + v1;
    let d2 = le64(m2.seed.0) + v2;
    let h1 = str_bytes(m1.name) + d1;
    let h2 = str_bytes(m2.name) + d2;
    lemma_meta_assoc(m1, k1);
    lemma_meta_assoc(m2, k2);
    lemma_str(m1.world_id, h1, m2.world_id, h2);
    lemma_str(m1.name, d1, m2.name, d2);
    lemma_le64(m1.seed.0, v1, m2.seed.0, v2);
    lemma_le64(m1.current_tick.0, u1, m2.current_tick.0, u2);
    lemma_le64(m1.sim_time.units, q1, m2.sim_time.units, q2);
    lemma_le64(m1.created_tick.0, p1, m2.created_tick.0, p2);
    lemma_le64(m1.snapshot_tick.0, l1, m2.snapshot_tick.0, l2);
    lemma_le64(m1.last_event_id.0, f1, m2.last_event_id.0, f2);
    lemma_le32(m1.format_version, k1, m2.format_version, k2);
    lemma_le64(w1.current_tick.0, s1, w2.current_tick.0, s2);
    lemma_le64(w1.sim_time.units, g1, w2.sim_time.units, g2);
    lemma_le64(w1.rng_state, n1, w2.rng_state, n2);
    lemma_le64(w1.next_entity_id, c1, w2.next_entity_id, c2);
    lemma_le64(w1.entities@.len() as u64, e1, w2.entities@.len() as u64, e2);
    lemma_entities(w1.entities@, y1, w2.entities@, y2);
    lemma_le64(w1.zones@.len() as u64, z1, w2.zones@.len() as u64, z2);
    assert(z1 + Seq::<u8>::empty() =~= z1);
    assert(z2 + Seq::<u8>::empty() =~= z2);
    lemma_zones(w1.zone_views(), Seq::<u8>::empty(), w2.zone_views(), Seq::<u8>::empty());
}

} // verus!
