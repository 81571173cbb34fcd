//! The collision detector and collision-aware movement.
//!
//! Each step the detector replaces every shape's overlap list: for every
//! pair of live entities whose first collider or sensor slots overlap
//! geometrically, a record is attached to a side exactly when that
//! side's `collides_with` mask matches the other side's layer.
//! Collision-aware movement tests an attempted displacement against the
//! solid colliders of all other bodies and either commits the move or
//! reports the blocking contacts.

use vstd::prelude::*;
use crate::consts::{POS_LIMIT, RADIUS_LIMIT};
use crate::fixed::absi;
use crate::physics::{
    Transform, CollisionShape, Collider, Collision, contact_normal, shapes_overlap,
    shape_overlaps_shape, clamp_to, record_wf,
};
use crate::world::{EntityRecord, World};

verus! {

/// The geometric content of one collider slot: all that detection reads.
pub struct SlotGeom {
    pub shape: CollisionShape,
    pub collision_layer: u64,
    pub collides_with: u64,
}

/// The geometry of one entity: its transform and the first collider and
/// sensor slots.
pub struct Geom {
    pub transform: Transform,
    pub col0: Option<SlotGeom>,
    pub sen0: Option<SlotGeom>,
}

pub open spec fn slot_geom(c: Collider) -> SlotGeom {
    SlotGeom { shape: c.shape, collision_layer: c.collision_layer, collides_with: c.collides_with }
}

pub open spec fn geom_of(rec: EntityRecord) -> Geom {
    Geom {
        transform: rec.transform,
        col0: if rec.body.colliders@.len() > 0 {
            Some(slot_geom(rec.body.colliders@[0]))
        } else {
            None
        },
        sen0: if rec.body.sensors@.len() > 0 {
            Some(slot_geom(rec.body.sensors@[0]))
        } else {
            None
        },
    }
}

/// The geometry of the whole store, positionally.
pub open spec fn geoms(slots: Seq<Option<EntityRecord>>) -> Seq<Option<Geom>> {
    slots.map_values(
        |s: Option<EntityRecord>|
            match s {
                Some(r) => Some(geom_of(r)),
                None => None,
            },
    )
}

/// Slot `k` of a geometry: 0 is the first solid collider, 1 the first
/// sensor.
pub open spec fn slot_of(g: Geom, k: int) -> Option<SlotGeom> {
    if k == 0 {
        g.col0
    } else {
        g.sen0
    }
}

/// The record attached when slot `a` of entity `i` (at `gi`) sees slot
/// `b` of entity `j` (at `gj`).
pub open spec fn mk_record(i: int, gi: Geom, a: SlotGeom, j: int, gj: Geom, b: SlotGeom) -> Collision {
    Collision {
        entity1: i as u64,
        entity2: j as u64,
        shape1: a.shape,
        collision_layer1: a.collision_layer,
        collides_with1: a.collides_with,
        shape2: b.shape,
        collision_layer2: b.collision_layer,
        collides_with2: b.collides_with,
        transform1: gi.transform,
        transform2: gj.transform,
        normal_x: contact_normal(gi.transform, gj.transform, b.shape).0 as i64,
        normal_y: contact_normal(gi.transform, gj.transform, b.shape).1 as i64,
    }
}

/// Records produced for slot `k` of entity `i` by slot `m` of entity `j`.
pub open spec fn hit_one(gs: Seq<Option<Geom>>, i: int, k: int, j: int, m: int) -> Seq<Collision> {
    let gi = gs[i]->Some_0;
    let gj = gs[j]->Some_0;
    match (slot_of(gi, k), slot_of(gj, m)) {
        (Some(a), Some(b)) => {
            if shapes_overlap(gi.transform, a.shape, gj.transform, b.shape) && (a.collides_with
                & b.collision_layer) > 0 {
                seq![mk_record(i, gi, a, j, gj, b)]
            } else {
                Seq::empty()
            }
        },
        _ => Seq::empty(),
    }
}

/// All records entity `j` contributes to slot `k` of entity `i`.
pub open spec fn hits_from(gs: Seq<Option<Geom>>, i: int, k: int, j: int) -> Seq<Collision> {
    if j == i || !(0 <= j < gs.len()) || gs[j] is None {
        Seq::empty()
    } else {
        hit_one(gs, i, k, j, 0) + hit_one(gs, i, k, j, 1)
    }
}

pub open spec fn hits_upto(gs: Seq<Option<Geom>>, i: int, k: int, n: nat) -> Seq<Collision>
    decreases n,
{
    if n == 0 {
        Seq::empty()
    } else {
        hits_upto(gs, i, k, (n - 1) as nat) + hits_from(gs, i, k, n - 1)
    }
}

/// The full overlap list that detection produces this step for slot `k`
/// of entity `i`: the records of all other live entities, in index
/// order (consumers must not rely on the order).
pub open spec fn expected_hits(gs: Seq<Option<Geom>>, i: int, k: int) -> Seq<Collision> {
    hits_upto(gs, i, k, gs.len())
}


/// Record `c` is exactly what detection attaches to slot `k` of entity
/// `i` for slot `m` of entity `j`: the two slots exist, their shapes
/// overlap geometrically, and `i`'s mask reacts to `j`'s layer.
pub open spec fn record_of_pair(
    gs: Seq<Option<Geom>>,
    i: int,
    k: int,
    j: int,
    m: int,
    c: Collision,
) -> bool {
    &&& 0 <= j < gs.len()
    &&& j != i
    &&& gs[j] is Some
    &&& (m == 0 || m == 1)
    &&& slot_of(gs[i]->Some_0, k) is Some
    &&& slot_of(gs[j]->Some_0, m) is Some
    &&& shapes_overlap(
        gs[i]->Some_0.transform,
        slot_of(gs[i]->Some_0, k)->Some_0.shape,
        gs[j]->Some_0.transform,
        slot_of(gs[j]->Some_0, m)->Some_0.shape,
    )
    &&& slot_of(gs[i]->Some_0, k)->Some_0.collides_with & slot_of(
        gs[j]->Some_0,
        m,
    )->Some_0.collision_layer > 0
    &&& c == mk_record(
        i,
        gs[i]->Some_0,
        slot_of(gs[i]->Some_0, k)->Some_0,
        j,
        gs[j]->Some_0,
        slot_of(gs[j]->Some_0, m)->Some_0,
    )
}

proof fn lemma_hits_upto_extends(gs: Seq<Option<Geom>>, i: int, k: int, j: int, n: nat, c: Collision)
    requires
        0 <= j < n <= gs.len(),
        hits_from(gs, i, k, j).contains(c),
    ensures
        hits_upto(gs, i, k, n).contains(c),
    decreases n,
{
    let prev = hits_upto(gs, i, k, (n - 1) as nat);
    let cur = hits_upto(gs, i, k, n);
    if j == n - 1 {
        let idx = choose|idx: int|
            0 <= idx < hits_from(gs, i, k, j).len() && hits_from(gs, i, k, j)[idx] == c;
        assert(cur[prev.len() + idx] == c);
    } else {
        lemma_hits_upto_extends(gs, i, k, j, (n - 1) as nat, c);
        let idx = choose|idx: int| 0 <= idx < prev.len() && prev[idx] == c;
        assert(cur[idx] == c);
    }
}

/// Detection completeness, per pair: whenever slot `m` of another live
/// entity `j` overlaps slot `k` of entity `i` and `i`'s mask reacts to
/// `j`'s layer, the record of that pair stands in `i`'s overlap list.
pub proof fn lemma_detection_complete(
    gs: Seq<Option<Geom>>,
    i: int,
    k: int,
    j: int,
    m: int,
    c: Collision,
)
    requires
        0 <= i < gs.len(),
        gs[i] is Some,
        record_of_pair(gs, i, k, j, m, c),
    ensures
        expected_hits(gs, i, k).contains(c),
{
    let h = hit_one(gs, i, k, j, m);
    assert(h == seq![c]);
    assert(h[0] == c);
    let from = hits_from(gs, i, k, j);
    if m == 0 {
        assert(from[0] == c);
    } else {
        assert(from[hit_one(gs, i, k, j, 0).len() as int] == c);
    }
    lemma_hits_upto_extends(gs, i, k, j, gs.len(), c);
}

/// Record `c` comes from some mask-gated overlapping pair.
pub open spec fn sound_record(gs: Seq<Option<Geom>>, i: int, k: int, c: Collision) -> bool {
    exists|j: int, m: int| record_of_pair(gs, i, k, j, m, c)
}

/// Detection soundness, per record: everything in an overlap list is
/// the record of some live, geometrically overlapping, mask-gated pair.
/// Non-overlapping or mask-filtered pairs contribute nothing.
pub proof fn lemma_detection_sound(gs: Seq<Option<Geom>>, i: int, k: int, n: nat)
    requires
        0 <= i < gs.len(),
        gs[i] is Some,
        n <= gs.len(),
    ensures
        forall|q: int|
            0 <= q < hits_upto(gs, i, k, n).len() ==> sound_record(
                gs,
                i,
                k,
                #[trigger] hits_upto(gs, i, k, n)[q],
            ),
    decreases n,
{
    if n > 0 {
        lemma_detection_sound(gs, i, k, (n - 1) as nat);
        let j = n - 1;
        let prev = hits_upto(gs, i, k, (n - 1) as nat);
        let h0 = hit_one(gs, i, k, j, 0);
        let h1 = hit_one(gs, i, k, j, 1);
        assert forall|q: int| 0 <= q < hits_upto(gs, i, k, n).len() implies sound_record(
            gs,
            i,
            k,
            #[trigger] hits_upto(gs, i, k, n)[q],
        ) by {
            let cur = hits_upto(gs, i, k, n);
            if q < prev.len() {
                assert(cur[q] == prev[q]);
                assert(sound_record(gs, i, k, prev[q]));
            } else if q < prev.len() + h0.len() {
                assert(cur[q] == h0[q - prev.len()]);
                assert(h0.len() == 1 && cur[q] == h0[0]);
                assert(record_of_pair(gs, i, k, j, 0, cur[q]));
            } else {
                assert(cur[q] == h1[q - prev.len() - h0.len()]);
                assert(h1.len() == 1 && cur[q] == h1[0]);
                assert(record_of_pair(gs, i, k, j, 1, cur[q]));
            }
        };
    }
}

/// Well-formedness of a store's geometry.
pub open spec fn gs_wf(gs: Seq<Option<Geom>>) -> bool {
    forall|j: int|
        0 <= j < gs.len() ==> match #[trigger] gs[j] {
            Some(g) => g.transform.wf() && (match g.col0 {
                Some(a) => a.shape.wf(),
                None => true,
            }) && (match g.sen0 {
                Some(a) => a.shape.wf(),
                None => true,
            }),
            None => true,
        }
}

/// Well-formedness of the slot sequence itself.
pub open spec fn slots_wf(s: Seq<Option<EntityRecord>>) -> bool {
    forall|j: int|
        0 <= j < s.len() ==> match #[trigger] s[j] {
            Some(r) => r.wf(),
            None => true,
        }
}

/// A well-formed store has well-formed geometry.
pub proof fn lemma_gs_wf(s: Seq<Option<EntityRecord>>)
    requires
        slots_wf(s),
    ensures
        gs_wf(geoms(s)),
{
    let gs = geoms(s);
    assert forall|j: int| 0 <= j < gs.len() implies match #[trigger] gs[j] {
        Some(g) => g.transform.wf() && (match g.col0 {
            Some(a) => a.shape.wf(),
            None => true,
        }) && (match g.sen0 {
            Some(a) => a.shape.wf(),
            None => true,
        }),
        None => true,
    } by {
        assert(gs[j] == match s[j] {
            Some(r) => Some(geom_of(r)),
            None => None,
        });
        match s[j] {
            Some(r) => {
                assert(r.wf());
                if r.body.colliders@.len() > 0 {
                    assert(r.body.colliders@[0].wf());
                }
                if r.body.sensors@.len() > 0 {
                    assert(r.body.sensors@[0].wf());
                }
            },
            None => {},
        }
    };
}

/// A world's live slots are well formed.
pub proof fn lemma_world_slots_wf(w: World)
    requires
        w.wf(),
    ensures
        slots_wf(w.slots@),
{
    assert forall|j: int| 0 <= j < w.slots@.len() implies match #[trigger] w.slots@[j] {
        Some(r) => r.wf(),
        None => true,
    } by {
        if w.slots@[j] is Some {
            assert(w.live(j));
            assert(w.at(j).wf());
        }
    };
}

proof fn lemma_sq_le(x: int, s: int)
    by (nonlinear_arith)
    requires
        x * x <= s * s,
        s >= 0,
    ensures
        -s <= x <= s,
{
}

/// An overlapping pair's contact normal is bounded by the shape
/// extents: each component is at most twice the radius limit.
pub proof fn lemma_contact_normal_bound(
    t1: Transform,
    s1: CollisionShape,
    t2: Transform,
    s2: CollisionShape,
)
    requires
        shapes_overlap(t1, s1, t2, s2),
        s1.wf(),
        s2.wf(),
    ensures
        absi(contact_normal(t1, t2, s2).0) <= 2 * RADIUS_LIMIT,
        absi(contact_normal(t1, t2, s2).1) <= 2 * RADIUS_LIMIT,
{
    match (s1, s2) {
        (CollisionShape::Circle(r1), CollisionShape::Circle(r2)) => {
            let dx = t1.x - t2.x;
            let dy = t1.y - t2.y;
            let s = r1 + r2;
            assert(dx * dx <= s * s && dy * dy <= s * s) by (nonlinear_arith)
                requires
                    dx * dx + dy * dy <= s * s,
            {
            }
            lemma_sq_le(dx, s);
            lemma_sq_le(dy, s);
        },
        (CollisionShape::Circle(r1), CollisionShape::Rect(hw, hh)) => {
            let nx = clamp_to(t1.x as int, t2.x - hw, t2.x + hw);
            let ny = clamp_to(t1.y as int, t2.y - hh, t2.y + hh);
            let dx = t1.x - nx;
            let dy = t1.y - ny;
            assert(dx * dx <= (r1 as int) * (r1 as int) && dy * dy <= (r1 as int) * (
            r1 as int)) by (nonlinear_arith)
                requires
                    dx * dx + dy * dy <= (r1 as int) * (r1 as int),
            {
            }
            lemma_sq_le(dx, r1 as int);
            lemma_sq_le(dy, r1 as int);
        },
        (CollisionShape::Rect(hw1, hh1), CollisionShape::Circle(r2)) => {
            // overlap puts the circle's center within the box expanded
            // by the radius, so the center difference is bounded.
            let nx = clamp_to(t2.x as int, t1.x - hw1, t1.x + hw1);
            let ny = clamp_to(t2.y as int, t1.y - hh1, t1.y + hh1);
            let dx = t2.x - nx;
            let dy = t2.y - ny;
            assert(dx * dx <= (r2 as int) * (r2 as int) && dy * dy <= (r2 as int) * (
            r2 as int)) by (nonlinear_arith)
                requires
                    dx * dx + dy * dy <= (r2 as int) * (r2 as int),
            {
            }
            lemma_sq_le(dx, r2 as int);
            lemma_sq_le(dy, r2 as int);
        },
        (CollisionShape::Rect(hw1, hh1), CollisionShape::Rect(hw2, hh2)) => {
        },
    }
}

proof fn lemma_mk_record_wf(i: int, gi: Geom, a: SlotGeom, j: int, gj: Geom, b: SlotGeom)
    requires
        gi.transform.wf(),
        gj.transform.wf(),
        a.shape.wf(),
        b.shape.wf(),
        shapes_overlap(gi.transform, a.shape, gj.transform, b.shape),
    ensures
        record_wf(mk_record(i, gi, a, j, gj, b)),
{
    lemma_contact_normal_bound(gi.transform, a.shape, gj.transform, b.shape);
}

proof fn lemma_hit_one_wf(gs: Seq<Option<Geom>>, i: int, k: int, j: int, m: int)
    requires
        gs_wf(gs),
        0 <= i < gs.len(),
        0 <= j < gs.len(),
        gs[i] is Some,
        gs[j] is Some,
    ensures
        hit_one(gs, i, k, j, m).len() <= 1,
        hit_one(gs, i, k, j, m).len() == 1 ==> record_wf(hit_one(gs, i, k, j, m)[0]),
{
    let gi = gs[i]->Some_0;
    let gj = gs[j]->Some_0;
    match (slot_of(gi, k), slot_of(gj, m)) {
        (Some(a), Some(b)) => {
            if shapes_overlap(gi.transform, a.shape, gj.transform, b.shape) && (a.collides_with
                & b.collision_layer) > 0 {
                lemma_mk_record_wf(i, gi, a, j, gj, b);
            }
        },
        _ => {},
    }
}

/// Every record the detector produces is well formed.
pub proof fn lemma_hits_wf(gs: Seq<Option<Geom>>, i: int, k: int, n: nat)
    requires
        gs_wf(gs),
        0 <= i < gs.len(),
        gs[i] is Some,
        n <= gs.len(),
    ensures
        forall|q: int|
            0 <= q < hits_upto(gs, i, k, n).len() ==> record_wf(#[trigger] hits_upto(
                gs,
                i,
                k,
                n,
            )[q]),
    decreases n,
{
    if n > 0 {
        lemma_hits_wf(gs, i, k, (n - 1) as nat);
        let j = n - 1;
        let prev = hits_upto(gs, i, k, (n - 1) as nat);
        let cur = hits_upto(gs, i, k, n);
        if j != i && gs[j] is Some {
            let h0 = hit_one(gs, i, k, j, 0);
            let h1 = hit_one(gs, i, k, j, 1);
            lemma_hit_one_wf(gs, i, k, j, 0);
            lemma_hit_one_wf(gs, i, k, j, 1);
            assert(cur == prev + (h0 + h1));
            assert forall|q: int| 0 <= q < cur.len() implies record_wf(#[trigger] cur[q]) by {
                if q < prev.len() {
                    assert(cur[q] == prev[q]);
                } else if q < prev.len() + h0.len() {
                    assert(cur[q] == h0[q - prev.len()]);
                } else {
                    assert(cur[q] == h1[q - prev.len() - h0.len()]);
                }
            };
        } else {
            assert(hits_from(gs, i, k, j) == Seq::<Collision>::empty());
            assert forall|q: int| 0 <= q < cur.len() implies record_wf(#[trigger] cur[q]) by {
                assert(cur[q] == prev[q]);
            };
        }
    }
}

/// Compute the contact normal for a pair of positions and the other
/// side's shape.
pub(crate) fn normal_exec(t1: &Transform, t2: &Transform, s2: &CollisionShape) -> (r: (i64, i64))
    requires
        t1.wf(),
        t2.wf(),
        s2.wf(),
    ensures
        r.0 == contact_normal(*t1, *t2, *s2).0,
        r.1 == contact_normal(*t1, *t2, *s2).1,
{
    match s2 {
        CollisionShape::Circle(_) => (t1.x - t2.x, t1.y - t2.y),
        CollisionShape::Rect(hw, hh) => {
            let lox = t2.x - *hw;
            let hix = t2.x + *hw;
            let loy = t2.y - *hh;
            let hiy = t2.y + *hh;
            let nx = if t1.x < lox {
                lox
            } else if t1.x > hix {
                hix
            } else {
                t1.x
            };
            let ny = if t1.y < loy {
                loy
            } else if t1.y > hiy {
                hiy
            } else {
                t1.y
            };
            (t1.x - nx, t1.y - ny)
        },
    }
}

/// Collect the overlap records for slot `k` of entity `i` against every
/// other live entity, in index order.
#[verifier::loop_isolation(false)]
fn scan_hits(slots: &Vec<Option<EntityRecord>>, i: usize, k: usize) -> (out: Vec<Collision>)
    requires
        slots_wf(slots@),
        i < slots@.len(),
        slots@[i as int] is Some,
        k == 0 || k == 1,
        k == 0 ==> slots@[i as int]->Some_0.body.colliders@.len() > 0,
        k == 1 ==> slots@[i as int]->Some_0.body.sensors@.len() > 0,
    ensures
        out@ == expected_hits(geoms(slots@), i as int, k as int),
{
    let ghost gs = geoms(slots@);
    proof {
        lemma_gs_wf(slots@);
        assert(gs[i as int] == Some(geom_of(slots@[i as int]->Some_0)));
    }
    let rec_i = match &slots[i] {
        Some(r) => r,
        None => {
            loop
                invariant
                    false,
                decreases 0int,
            {
            }
        },
    };
    let ti = rec_i.transform;
    let own: &Collider = if k == 0 {
        &rec_i.body.colliders[0]
    } else {
        &rec_i.body.sensors[0]
    };
    let sa = own.shape;
    let la = own.collision_layer;
    let wa = own.collides_with;
    proof {
        assert(slot_of(gs[i as int]->Some_0, k as int) == Some(
            SlotGeom { shape: sa, collision_layer: la, collides_with: wa },
        ));
    }
    let mut out: Vec<Collision> = Vec::new();
    let mut j: usize = 0;
    while j < slots.len()
        invariant
            j <= slots@.len(),
            out@ == hits_upto(gs, i as int, k as int, j as nat),
        decreases slots@.len() - j,
    {
        let ghost out_before = out@;
        if j != i {
            match &slots[j] {
                Some(rec_j) => {
                    let tj = rec_j.transform;
                    proof {
                        assert(gs[j as int] == Some(geom_of(slots@[j as int]->Some_0)));
                        assert(rec_j.wf());
                        if rec_j.body.colliders@.len() > 0 {
                            assert(rec_j.body.colliders@[0].wf());
                        }
                        if rec_j.body.sensors@.len() > 0 {
                            assert(rec_j.body.sensors@[0].wf());
                        }
                    }
                    let ghost gi = gs[i as int]->Some_0;
                    let ghost gj = gs[j as int]->Some_0;
                    // first solid collider of j
                    if rec_j.body.colliders.len() > 0 {
                        let b = &rec_j.body.colliders[0];
                        if (wa & b.collision_layer) > 0 && shape_overlaps_shape(
                            &ti,
                            &sa,
                            &tj,
                            &b.shape,
                        ) {
                            let n = normal_exec(&ti, &tj, &b.shape);
                            let c = Collision {
                                entity1: i as u64,
                                entity2: j as u64,
                                shape1: sa,
                                collision_layer1: la,
                                collides_with1: wa,
                                shape2: b.shape,
                                collision_layer2: b.collision_layer,
                                collides_with2: b.collides_with,
                                transform1: ti,
                                transform2: tj,
                                normal_x: n.0,
                                normal_y: n.1,
                            };
                            out.push(c);
                            proof {
                                assert(c == mk_record(
                                    i as int,
                                    gi,
                                    SlotGeom { shape: sa, collision_layer: la, collides_with: wa },
                                    j as int,
                                    gj,
                                    slot_geom(rec_j.body.colliders@[0]),
                                ));
                                assert(out@ =~= out_before + hit_one(
                                    gs,
                                    i as int,
                                    k as int,
                                    j as int,
                                    0,
                                ));
                            }
                        } else {
                            proof {
                                assert(out@ =~= out_before + hit_one(
                                    gs,
                                    i as int,
                                    k as int,
                                    j as int,
                                    0,
                                ));
                            }
                        }
                    } else {
                        proof {
                            assert(out@ =~= out_before + hit_one(
                                gs,
                                i as int,
                                k as int,
                                j as int,
                                0,
                            ));
                        }
                    }
                    let ghost out_mid = out@;
                    // first sensor of j
                    if rec_j.body.sensors.len() > 0 {
                        let b = &rec_j.body.sensors[0];
                        if (wa & b.collision_layer) > 0 && shape_overlaps_shape(
                            &ti,
                            &sa,
                            &tj,
                            &b.shape,
                        ) {
                            let n = normal_exec(&ti, &tj, &b.shape);
                            let c = Collision {
                                entity1: i as u64,
                                entity2: j as u64,
                                shape1: sa,
                                collision_layer1: la,
                                collides_with1: wa,
                                shape2: b.shape,
                                collision_layer2: b.collision_layer,
                                collides_with2: b.collides_with,
                                transform1: ti,
                                transform2: tj,
                                normal_x: n.0,
                                normal_y: n.1,
                            };
                            out.push(c);
                            proof {
                                assert(c == mk_record(
                                    i as int,
                                    gi,
                                    SlotGeom { shape: sa, collision_layer: la, collides_with: wa },
                                    j as int,
                                    gj,
                                    slot_geom(rec_j.body.sensors@[0]),
                                ));
                                assert(out@ =~= out_mid + hit_one(
                                    gs,
                                    i as int,
                                    k as int,
                                    j as int,
                                    1,
                                ));
                            }
                        } else {
                            proof {
                                assert(out@ =~= out_mid + hit_one(
                                    gs,
                                    i as int,
                                    k as int,
                                    j as int,
                                    1,
                                ));
                            }
                        }
                    } else {
                        proof {
                            assert(out@ =~= out_mid + hit_one(
                                gs,
                                i as int,
                                k as int,
                                j as int,
                                1,
                            ));
                        }
                    }
                    proof {
                        assert(out@ =~= hits_upto(gs, i as int, k as int, (j + 1) as nat));
                    }
                },
                None => {
                    proof {
                        assert(hits_from(gs, i as int, k as int, j as int) =~= Seq::<
                            Collision,
                        >::empty());
                        assert(out@ =~= hits_upto(gs, i as int, k as int, (j + 1) as nat));
                    }
                },
            }
        } else {
            proof {
                assert(out@ =~= hits_upto(gs, i as int, k as int, (j + 1) as nat));
            }
        }
        j = j + 1;
    }
    out
}

/// Same shape and masks, whatever the overlap lists hold.
pub open spec fn same_shape(a: Collider, b: Collider) -> bool {
    a.shape == b.shape && a.collision_layer == b.collision_layer && a.collides_with
        == b.collides_with
}

/// What the detector does to one record: every component but the body
/// is untouched, shapes and masks are kept, and every overlap list is
/// replaced: the first collider and sensor slots get this step's
/// records, all other lists are emptied.
pub open spec fn lists_replaced(
    gs: Seq<Option<Geom>>,
    i: int,
    o: EntityRecord,
    n: EntityRecord,
) -> bool {
    &&& n.transform == o.transform
    &&& n.physics == o.physics
    &&& n.health == o.health
    &&& n.bullet == o.bullet
    &&& n.spinner == o.spinner
    &&& n.sprite == o.sprite
    &&& n.player == o.player
    &&& n.asteroid == o.asteroid
    &&& n.body.colliders@.len() == o.body.colliders@.len()
    &&& n.body.sensors@.len() == o.body.sensors@.len()
    &&& forall|c: int|
        0 <= c < n.body.colliders@.len() ==> same_shape(
            #[trigger] n.body.colliders@[c],
            o.body.colliders@[c],
        )
    &&& forall|c: int|
        0 <= c < n.body.sensors@.len() ==> same_shape(
            #[trigger] n.body.sensors@[c],
            o.body.sensors@[c],
        )
    &&& (n.body.colliders@.len() > 0 ==> n.body.colliders@[0].overlapping@ == expected_hits(
        gs,
        i,
        0,
    ))
    &&& (n.body.sensors@.len() > 0 ==> n.body.sensors@[0].overlapping@ == expected_hits(
        gs,
        i,
        1,
    ))
    &&& forall|c: int|
        1 <= c < n.body.colliders@.len() ==> (#[trigger] n.body.colliders@[c]).overlapping@
            =~= Seq::<Collision>::empty()
    &&& forall|c: int|
        1 <= c < n.body.sensors@.len() ==> (#[trigger] n.body.sensors@[c]).overlapping@ =~= Seq::<
            Collision,
        >::empty()
}

/// Rebuild a collider list with the same shapes and masks, the given
/// records in the first slot's list and empty lists elsewhere.
#[verifier::loop_isolation(false)]
fn with_lists(src: &Vec<Collider>, first: Vec<Collision>) -> (out: Vec<Collider>)
    requires
        forall|c: int| 0 <= c < src@.len() ==> (#[trigger] src@[c]).wf(),
        forall|q: int| 0 <= q < first@.len() ==> record_wf(#[trigger] first@[q]),
    ensures
        forall|c: int| 0 <= c < out@.len() ==> (#[trigger] out@[c]).wf(),
        out@.len() == src@.len(),
        forall|c: int| 0 <= c < out@.len() ==> same_shape(#[trigger] out@[c], src@[c]),
        out@.len() > 0 ==> out@[0].overlapping@ == first@,
        forall|c: int|
            1 <= c < out@.len() ==> (#[trigger] out@[c]).overlapping@ == Seq::<
                Collision,
            >::empty(),
{
    let mut out: Vec<Collider> = Vec::new();
    if src.len() == 0 {
        return out;
    }
    let c0 = &src[0];
    out.push(
        Collider {
            shape: c0.shape,
            collision_layer: c0.collision_layer,
            collides_with: c0.collides_with,
            overlapping: first,
        },
    );
    let mut c: usize = 1;
    while c < src.len()
        invariant
            1 <= c <= src@.len(),
            out@.len() == c,
            forall|q: int| 0 <= q < c ==> same_shape(#[trigger] out@[q], src@[q]),
            forall|q: int| 0 <= q < c ==> (#[trigger] out@[q]).wf(),
            out@[0].overlapping@ == first@,
            forall|q: int|
                1 <= q < c ==> (#[trigger] out@[q]).overlapping@ == Seq::<Collision>::empty(),
        decreases src@.len() - c,
    {
        let sc = &src[c];
        let fresh: Vec<Collision> = Vec::new();
        out.push(
            Collider {
                shape: sc.shape,
                collision_layer: sc.collision_layer,
                collides_with: sc.collides_with,
                overlapping: fresh,
            },
        );
        c = c + 1;
    }
    out
}

/// The all-pairs detection pass: every overlap list in the store is
/// replaced by this step's records, filtered per side by the layer
/// masks; nothing else changes.
#[verifier::loop_isolation(false)]
pub fn collision_system(world: &mut World)
    requires
        old(world).wf(),
    ensures
        final(world).wf(),
        final(world).pending@ == old(world).pending@,
        final(world).slots@.len() == old(world).slots@.len(),
        forall|i: int|
            0 <= i < old(world).slots@.len() ==> ((#[trigger] final(world).slots@[i]) is Some
                <==> old(world).slots@[i] is Some),
        forall|i: int|
            final(world).live(i) ==> lists_replaced(
                geoms(old(world).slots@),
                i,
                old(world).at(i),
                #[trigger] final(world).at(i),
            ),
{
    let ghost gs0 = geoms(old(world).slots@);
    let mut i: usize = 0;
    while i < world.slots.len()
        invariant
            world.wf(),
            world.pending@ == old(world).pending@,
            world.slots@.len() == old(world).slots@.len(),
            i <= world.slots@.len(),
            geoms(world.slots@) == gs0,
            forall|q: int|
                i <= q < world.slots@.len() ==> #[trigger] world.slots@[q] == old(
                    world,
                ).slots@[q],
            forall|q: int|
                0 <= q < i ==> ((#[trigger] world.slots@[q]) is Some <==> old(
                    world,
                ).slots@[q] is Some),
            forall|q: int|
                0 <= q < i && world.live(q) ==> lists_replaced(
                    gs0,
                    q,
                    old(world).at(q),
                    #[trigger] world.at(q),
                ),
        decreases world.slots@.len() - i,
    {
        let ghost w_head = *world;
        let has = match &world.slots[i] {
            Some(r) => (true, r.body.colliders.len() > 0, r.body.sensors.len() > 0),
            None => (false, false, false),
        };
        if has.0 {
            proof {
                lemma_world_slots_wf(*world);
            }
            let col_list = if has.1 {
                scan_hits(&world.slots, i, 0)
            } else {
                Vec::new()
            };
            let sen_list = if has.2 {
                scan_hits(&world.slots, i, 1)
            } else {
                Vec::new()
            };
            proof {
                lemma_gs_wf(world.slots@);
                if has.1 {
                    lemma_hits_wf(gs0, i as int, 0, gs0.len());
                }
                if has.2 {
                    lemma_hits_wf(gs0, i as int, 1, gs0.len());
                }
                assert(world.live(i as int) && world.at(i as int).wf());
            }
            let ghost before = world.slots@;
            let slot = world.slots[i].take();
            match slot {
                Some(mut rec) => {
                    let ghost orig = rec;
                    let cols = with_lists(&rec.body.colliders, col_list);
                    let sens = with_lists(&rec.body.sensors, sen_list);
                    rec.body = crate::physics::CollisionBody { colliders: cols, sensors: sens };
                    world.slots[i] = Some(rec);
                    proof {
                        assert(world.slots@ =~= before.update(i as int, Some(rec)));
                        assert(orig == old(world).slots@[i as int]->Some_0);
                        assert(lists_replaced(gs0, i as int, orig, rec));
                        // geometry unchanged at i: the first slots keep
                        // their shapes and masks
                        assert(geom_of(rec) == geom_of(orig));
                        assert forall|q: int| 0 <= q < world.slots@.len() implies #[trigger] geoms(
                            world.slots@,
                        )[q] == gs0[q] by {
                            if q != i as int {
                                assert(world.slots@[q] == before[q]);
                            }
                        };
                        assert(geoms(world.slots@) =~= gs0);
                        assert(rec.wf()) by {
                            assert(orig.wf());
                        };
                        assert forall|q: int| world.live(q) implies #[trigger] world.at(q).wf() by {
                            if q != i as int {
                                assert(world.at(q) == before[q]->Some_0);
                            }
                        };
                        assert forall|q: int| 0 <= q <= i && world.live(q) implies lists_replaced(
                            gs0,
                            q,
                            old(world).at(q),
                            #[trigger] world.at(q),
                        ) by {
                            if q == i as int {
                                assert(world.at(q) == rec);
                            } else {
                                assert(world.slots@[q] == w_head.slots@[q]);
                                assert(w_head.live(q));
                                assert(world.at(q) == w_head.at(q));
                                assert(lists_replaced(gs0, q, old(world).at(q), w_head.at(q)));
                            }
                        };
                    }
                },
                None => {},
            }
        }
        i = i + 1;
    }
}

/// The blocking contact entity `j` contributes when entity `i` tries to
/// stand at `target`: solid collider against solid collider, gated by
/// the mover's `collides_with` mask.
pub open spec fn blocking_one(gs: Seq<Option<Geom>>, i: int, target: Transform, j: int) -> Seq<
    Collision,
> {
    if j == i || !(0 <= j < gs.len()) || gs[j] is None {
        Seq::empty()
    } else {
        let gi = gs[i]->Some_0;
        let gj = gs[j]->Some_0;
        match (gi.col0, gj.col0) {
            (Some(a), Some(b)) => {
                if shapes_overlap(target, a.shape, gj.transform, b.shape) && (a.collides_with
                    & b.collision_layer) > 0 {
                    seq![mk_record(i, Geom { transform: target, ..gi }, a, j, gj, b)]
                } else {
                    Seq::empty()
                }
            },
            _ => Seq::empty(),
        }
    }
}

pub open spec fn blocking_upto(gs: Seq<Option<Geom>>, i: int, target: Transform, n: nat) -> Seq<
    Collision,
>
    decreases n,
{
    if n == 0 {
        Seq::empty()
    } else {
        blocking_upto(gs, i, target, (n - 1) as nat) + blocking_one(gs, i, target, n - 1)
    }
}

/// Every blocking contact of an attempted move, in index order.
pub open spec fn blocking_contacts(gs: Seq<Option<Geom>>, i: int, target: Transform) -> Seq<
    Collision,
> {
    blocking_upto(gs, i, target, gs.len())
}

/// Every blocking contact is a well-formed record.
pub proof fn lemma_blocking_wf(gs: Seq<Option<Geom>>, i: int, target: Transform, n: nat)
    requires
        gs_wf(gs),
        0 <= i < gs.len(),
        gs[i] is Some,
        target.wf(),
        n <= gs.len(),
    ensures
        forall|q: int|
            0 <= q < blocking_upto(gs, i, target, n).len() ==> record_wf(
                #[trigger] blocking_upto(gs, i, target, n)[q],
            ),
    decreases n,
{
    if n > 0 {
        lemma_blocking_wf(gs, i, target, (n - 1) as nat);
        let j = n - 1;
        let prev = blocking_upto(gs, i, target, (n - 1) as nat);
        let cur = blocking_upto(gs, i, target, n);
        let h = blocking_one(gs, i, target, j);
        if j != i && gs[j] is Some {
            let gi = gs[i]->Some_0;
            let gj = gs[j]->Some_0;
            match (gi.col0, gj.col0) {
                (Some(a), Some(b)) => {
                    if shapes_overlap(target, a.shape, gj.transform, b.shape) && (
                    a.collides_with & b.collision_layer) > 0 {
                        lemma_mk_record_wf(i, Geom { transform: target, ..gi }, a, j, gj, b);
                    }
                },
                _ => {},
            }
        }
        assert forall|q: int| 0 <= q < cur.len() implies record_wf(#[trigger] cur[q]) by {
            if q < prev.len() {
                assert(cur[q] == prev[q]);
            } else {
                assert(cur[q] == h[q - prev.len()]);
            }
        };
    }
}

/// A mover with no solid collider is never blocked.
proof fn lemma_blocking_empty(gs: Seq<Option<Geom>>, i: int, target: Transform, n: nat)
    requires
        0 <= i < gs.len(),
        gs[i] is Some,
        gs[i]->Some_0.col0 is None,
    ensures
        blocking_upto(gs, i, target, n) == Seq::<Collision>::empty(),
    decreases n,
{
    if n > 0 {
        lemma_blocking_empty(gs, i, target, (n - 1) as nat);
        assert(blocking_upto(gs, i, target, n) =~= Seq::<Collision>::empty());
    }
}

/// Collect the blocking contacts for entity `i` standing at the target
/// position.
#[verifier::loop_isolation(false)]
pub(crate) fn scan_blocking(slots: &Vec<Option<EntityRecord>>, i: usize, tx: i64, ty: i64) -> (out: Vec<
    Collision,
>)
    requires
        slots_wf(slots@),
        i < slots@.len(),
        slots@[i as int] is Some,
        absi(tx as int) <= POS_LIMIT,
        absi(ty as int) <= POS_LIMIT,
    ensures
        out@ == blocking_contacts(geoms(slots@), i as int, Transform { x: tx, y: ty }),
{
    let ghost gs = geoms(slots@);
    let ghost target = Transform { x: tx, y: ty };
    proof {
        lemma_gs_wf(slots@);
        assert(gs[i as int] == Some(geom_of(slots@[i as int]->Some_0)));
    }
    let rec_i = match &slots[i] {
        Some(r) => r,
        None => {
            loop
                invariant
                    false,
                decreases 0int,
            {
            }
        },
    };
    let mut out: Vec<Collision> = Vec::new();
    if rec_i.body.colliders.len() == 0 {
        proof {
            lemma_blocking_empty(gs, i as int, target, gs.len());
        }
        return out;
    }
    let own = &rec_i.body.colliders[0];
    let sa = own.shape;
    let la = own.collision_layer;
    let wa = own.collides_with;
    let ti = Transform { x: tx, y: ty };
    proof {
        assert((gs[i as int]->Some_0).col0 == Some(
            SlotGeom { shape: sa, collision_layer: la, collides_with: wa },
        ));
        assert(rec_i.wf());
        assert(rec_i.body.colliders@[0].wf());
    }
    let mut j: usize = 0;
    while j < slots.len()
        invariant
            j <= slots@.len(),
            out@ == blocking_upto(gs, i as int, target, j as nat),
        decreases slots@.len() - j,
    {
        let ghost out_before = out@;
        if j != i {
            match &slots[j] {
                Some(rec_j) => {
                    let tj = rec_j.transform;
                    proof {
                        assert(gs[j as int] == Some(geom_of(slots@[j as int]->Some_0)));
                        assert(rec_j.wf());
                        if rec_j.body.colliders@.len() > 0 {
                            assert(rec_j.body.colliders@[0].wf());
                        }
                    }
                    let ghost gi = gs[i as int]->Some_0;
                    let ghost gj = gs[j as int]->Some_0;
                    if rec_j.body.colliders.len() > 0 {
                        let b = &rec_j.body.colliders[0];
                        if (wa & b.collision_layer) > 0 && shape_overlaps_shape(
                            &ti,
                            &sa,
                            &tj,
                            &b.shape,
                        ) {
                            let n = normal_exec(&ti, &tj, &b.shape);
                            let c = Collision {
                                entity1: i as u64,
                                entity2: j as u64,
                                shape1: sa,
                                collision_layer1: la,
                                collides_with1: wa,
                                shape2: b.shape,
                                collision_layer2: b.collision_layer,
                                collides_with2: b.collides_with,
                                transform1: ti,
                                transform2: tj,
                                normal_x: n.0,
                                normal_y: n.1,
                            };
                            out.push(c);
                            proof {
                                assert(c == mk_record(
                                    i as int,
                                    Geom { transform: target, ..gi },
                                    SlotGeom { shape: sa, collision_layer: la, collides_with: wa },
                                    j as int,
                                    gj,
                                    slot_geom(rec_j.body.colliders@[0]),
                                ));
                                assert(out@ =~= out_before + blocking_one(
                                    gs,
                                    i as int,
                                    target,
                                    j as int,
                                ));
                            }
                        } else {
                            proof {
                                assert(out@ =~= out_before + blocking_one(
                                    gs,
                                    i as int,
                                    target,
                                    j as int,
                                ));
                            }
                        }
                    } else {
                        proof {
                            assert(out@ =~= out_before + blocking_one(
                                gs,
                                i as int,
                                target,
                                j as int,
                            ));
                        }
                    }
                    proof {
                        assert(out@ =~= blocking_upto(gs, i as int, target, (j + 1) as nat));
                    }
                },
                None => {
                    proof {
                        assert(out@ =~= blocking_upto(gs, i as int, target, (j + 1) as nat));
                    }
                },
            }
        } else {
            proof {
                assert(out@ =~= blocking_upto(gs, i as int, target, (j + 1) as nat));
            }
        }
        j = j + 1;
    }
    out
}

impl World {
    /// Collision-aware movement: attempt the displacement, test the
    /// destination against the solid colliders of all other bodies
    /// (never sensors), and either commit the move (no blocker; empty
    /// result) or leave the position unchanged and return every
    /// blocking contact. Zero displacements are never submitted: their
    /// reflection geometry is undefined.
    pub fn move_body_and_collide(&mut self, id: u64, dx: i64, dy: i64) -> (out: Vec<Collision>)
        requires
            old(self).wf(),
            old(self).live(id as int),
            !(dx == 0 && dy == 0),
            absi(old(self).at(id as int).transform.x + dx) <= POS_LIMIT,
            absi(old(self).at(id as int).transform.y + dy) <= POS_LIMIT,
        ensures
            final(self).wf(),
            final(self).pending@ == old(self).pending@,
            out@ == blocking_contacts(
                geoms(old(self).slots@),
                id as int,
                Transform {
                    x: (old(self).at(id as int).transform.x + dx) as i64,
                    y: (old(self).at(id as int).transform.y + dy) as i64,
                },
            ),
            forall|q: int| 0 <= q < out@.len() ==> record_wf(#[trigger] out@[q]),
            out@.len() == 0 ==> final(self).slots@ == old(self).slots@.update(
                id as int,
                Some(
                    EntityRecord {
                        transform: Transform {
                            x: (old(self).at(id as int).transform.x + dx) as i64,
                            y: (old(self).at(id as int).transform.y + dy) as i64,
                        },
                        ..old(self).at(id as int)
                    },
                ),
            ),
            out@.len() > 0 ==> final(self).slots@ == old(self).slots@,
    {
        let t = self.transform(id);
        let tx = t.x + dx;
        let ty = t.y + dy;
        proof {
            lemma_world_slots_wf(*self);
            lemma_gs_wf(self.slots@);
            lemma_blocking_wf(
                geoms(self.slots@),
                id as int,
                Transform { x: tx, y: ty },
                geoms(self.slots@).len(),
            );
        }
        let out = scan_blocking(&self.slots, id as usize, tx, ty);
        if out.len() == 0 {
            self.move_body(id, dx, dy);
        }
        out
    }
}

} // verus!
