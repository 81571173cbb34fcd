//! Shapes, transforms, colliders and the pairwise geometric overlap
//! tests. A shape is a circle or an axis-aligned box given by half
//! extents; every test is exact integer arithmetic on milli-unit
//! coordinates.

use vstd::prelude::*;
use crate::consts::{POS_LIMIT, RADIUS_LIMIT, DEG_FULL};
use crate::fixed::absi;
use crate::trig::{atan2_approx, atan2_mdeg, aim_angle, aim_from_raw};

verus! {

/// A position in milli-units.
#[derive(Clone, Copy, Debug, PartialEq, Eq, Structural)]
pub struct Transform {
    pub x: i64,
    pub y: i64,
}

impl Transform {
    /// Both coordinates within the machine position limit.
    pub open spec fn wf(self) -> bool {
        absi(self.x as int) <= POS_LIMIT && absi(self.y as int) <= POS_LIMIT
    }

    pub fn new(x: i64, y: i64) -> (t: Transform)
        ensures
            t.x == x,
            t.y == y,
    {
        Transform { x, y }
    }

    /// The game's aim angle from this position toward `(x, y)`:
    /// the raw arctangent of the difference, shifted by 270 degrees
    /// (630 when negative) and reduced into a full turn. The convention
    /// matches the integration step `(sin a, -cos a)`: moving with the
    /// returned angle heads toward the target.
    pub fn get_angle_to(&self, x: i64, y: i64) -> (r: i64)
        requires
            self.wf(),
            absi(x as int) <= POS_LIMIT,
            absi(y as int) <= POS_LIMIT,
        ensures
            r == aim_from_raw(
                atan2_approx(self.y - y, self.x - x),
            ),
            0 <= r < DEG_FULL,
    {
        let raw = atan2_mdeg(self.y - y, self.x - x);
        aim_angle(raw)
    }
}

/// A collision primitive: a circle of a radius, or an axis-aligned box
/// of half extents, all in milli-units.
#[derive(Clone, Copy, Debug, PartialEq, Eq, Structural)]
pub enum CollisionShape {
    Circle(i64),
    Rect(i64, i64),
}

impl CollisionShape {
    /// Non-negative extents within the machine radius limit.
    pub open spec fn wf(self) -> bool {
        match self {
            CollisionShape::Circle(r) => 0 <= r <= RADIUS_LIMIT,
            CollisionShape::Rect(hw, hh) => 0 <= hw <= RADIUS_LIMIT && 0 <= hh
                <= RADIUS_LIMIT,
        }
    }

    /// The shape's half width: the wrap teleport margin uses it as the
    /// shape's extent.
    pub open spec fn spec_half_width(self) -> int {
        match self {
            CollisionShape::Circle(r) => r as int,
            CollisionShape::Rect(hw, _) => hw as int,
        }
    }

    /// Half the shape's width along the x axis.
    pub fn half_width(&self) -> (r: i64)
        ensures
            r == self.spec_half_width(),
    {
        match self {
            CollisionShape::Circle(r) => *r,
            CollisionShape::Rect(hw, _) => *hw,
        }
    }
}

/// Clamp `v` into the interval `[lo, hi]`.
pub open spec fn clamp_to(v: int, lo: int, hi: int) -> int {
    if v < lo {
        lo
    } else if v > hi {
        hi
    } else {
        v
    }
}

/// Two circles overlap when the distance of their centers is strictly
/// below the sum of their radii: merely touching circles do not
/// overlap.
pub open spec fn circles_overlap(t1: Transform, r1: int, t2: Transform, r2: int) -> bool {
    (t1.x - t2.x) * (t1.x - t2.x) + (t1.y - t2.y) * (t1.y - t2.y) < (r1 + r2) * (r1 + r2)
}

/// A circle overlaps a box when the box point nearest to the circle's
/// center lies strictly inside the circle, with the same strict
/// boundary as the circle test.
pub open spec fn circle_rect_overlap(
    t1: Transform,
    r: int,
    t2: Transform,
    hw: int,
    hh: int,
) -> bool {
    let nx = clamp_to(t1.x as int, t2.x - hw, t2.x + hw);
    let ny = clamp_to(t1.y as int, t2.y - hh, t2.y + hh);
    (t1.x - nx) * (t1.x - nx) + (t1.y - ny) * (t1.y - ny) < r * r
}

/// Two axis-aligned boxes overlap when their projections strictly
/// overlap on both axes, with the same strict boundary as the circle
/// test.
pub open spec fn rects_overlap(
    t1: Transform,
    hw1: int,
    hh1: int,
    t2: Transform,
    hw2: int,
    hh2: int,
) -> bool {
    absi(t1.x - t2.x) < hw1 + hw2 && absi(t1.y - t2.y) < hh1 + hh2
}

/// The geometric overlap test for any pair of shapes.
pub open spec fn shapes_overlap(
    t1: Transform,
    s1: CollisionShape,
    t2: Transform,
    s2: CollisionShape,
) -> bool {
    match (s1, s2) {
        (CollisionShape::Circle(r1), CollisionShape::Circle(r2)) => circles_overlap(
            t1,
            r1 as int,
            t2,
            r2 as int,
        ),
        (CollisionShape::Circle(r1), CollisionShape::Rect(hw, hh)) => circle_rect_overlap(
            t1,
            r1 as int,
            t2,
            hw as int,
            hh as int,
        ),
        (CollisionShape::Rect(hw, hh), CollisionShape::Circle(r2)) => circle_rect_overlap(
            t2,
            r2 as int,
            t1,
            hw as int,
            hh as int,
        ),
        (CollisionShape::Rect(hw1, hh1), CollisionShape::Rect(hw2, hh2)) => rects_overlap(
            t1,
            hw1 as int,
            hh1 as int,
            t2,
            hw2 as int,
            hh2 as int,
        ),
    }
}

/// The contact normal attached to a collision record: the vector from
/// the other shape's contact feature toward the first shape's center
/// (for a box, from the box point nearest to the first center). It is
/// not unit-scaled; the reflection formula divides by its squared
/// length.
pub open spec fn contact_normal(
    t1: Transform,
    t2: Transform,
    s2: CollisionShape,
) -> (int, int) {
    match s2 {
        CollisionShape::Circle(_) => (t1.x - t2.x, t1.y - t2.y),
        CollisionShape::Rect(hw, hh) => (
            t1.x - clamp_to(t1.x as int, t2.x - hw, t2.x + hw),
            t1.y - clamp_to(t1.y as int, t2.y - hh, t2.y + hh),
        ),
    }
}

proof fn lemma_sq_symm(a: int, b: int)
    by (nonlinear_arith)
    ensures
        (a - b) * (a - b) == (b - a) * (b - a),
{
}

/// The geometric overlap test is symmetric in its two shapes, whatever
/// the layer masks later make of the result.
pub proof fn lemma_overlap_symmetric(
    t1: Transform,
    s1: CollisionShape,
    t2: Transform,
    s2: CollisionShape,
)
    ensures
        shapes_overlap(t1, s1, t2, s2) == shapes_overlap(t2, s2, t1, s1),
{
    lemma_sq_symm(t1.x as int, t2.x as int);
    lemma_sq_symm(t1.y as int, t2.y as int);
    match (s1, s2) {
        (CollisionShape::Circle(r1), CollisionShape::Circle(r2)) => {
            assert((r1 + r2) * (r1 + r2) == (r2 + r1) * (r2 + r1));
        },
        (CollisionShape::Rect(hw1, hh1), CollisionShape::Rect(hw2, hh2)) => {
            assert(absi(t1.x - t2.x) == absi(t2.x - t1.x));
            assert(absi(t1.y - t2.y) == absi(t2.y - t1.y));
        },
        _ => {},
    }
}

proof fn lemma_sq_mono(a: int, m: int)
    by (nonlinear_arith)
    requires
        -m <= a <= m,
        0 <= m,
    ensures
        0 <= a * a <= m * m,
{
}

/// Exact circle-against-circle test on milli-unit coordinates.
pub fn circle_overlaps_circle(t1: &Transform, r1: i64, t2: &Transform, r2: i64) -> (b: bool)
    requires
        t1.wf(),
        t2.wf(),
        0 <= r1 <= RADIUS_LIMIT,
        0 <= r2 <= RADIUS_LIMIT,
    ensures
        b == circles_overlap(*t1, r1 as int, *t2, r2 as int),
{
    let dx: i128 = (t1.x as i128) - (t2.x as i128);
    let dy: i128 = (t1.y as i128) - (t2.y as i128);
    let rr: i128 = (r1 as i128) + (r2 as i128);
    proof {
        lemma_sq_mono(dx as int, 2 * POS_LIMIT);
        lemma_sq_mono(dy as int, 2 * POS_LIMIT);
        lemma_sq_mono(rr as int, 2 * RADIUS_LIMIT);
    }
    dx * dx + dy * dy < rr * rr
}

fn circle_overlaps_rect(t1: &Transform, r: i64, t2: &Transform, hw: i64, hh: i64) -> (b: bool)
    requires
        t1.wf(),
        t2.wf(),
        0 <= r <= RADIUS_LIMIT,
        0 <= hw <= RADIUS_LIMIT,
        0 <= hh <= RADIUS_LIMIT,
    ensures
        b == circle_rect_overlap(*t1, r as int, *t2, hw as int, hh as int),
{
    proof {
        lemma_sq_mono(r as int, RADIUS_LIMIT as int);
    }
    let lox: i128 = (t2.x as i128) - (hw as i128);
    let hix: i128 = (t2.x as i128) + (hw as i128);
    let loy: i128 = (t2.y as i128) - (hh as i128);
    let hiy: i128 = (t2.y as i128) + (hh as i128);
    let nx: i128 = if (t1.x as i128) < lox {
        lox
    } else if (t1.x as i128) > hix {
        hix
    } else {
        t1.x as i128
    };
    let ny: i128 = if (t1.y as i128) < loy {
        loy
    } else if (t1.y as i128) > hiy {
        hiy
    } else {
        t1.y as i128
    };
    let dx: i128 = (t1.x as i128) - nx;
    let dy: i128 = (t1.y as i128) - ny;
    proof {
        lemma_sq_mono(dx as int, 3 * POS_LIMIT);
        lemma_sq_mono(dy as int, 3 * POS_LIMIT);
    }
    dx * dx + dy * dy < (r as i128) * (r as i128)
}

fn rect_overlaps_rect(
    t1: &Transform,
    hw1: i64,
    hh1: i64,
    t2: &Transform,
    hw2: i64,
    hh2: i64,
) -> (b: bool)
    requires
        t1.wf(),
        t2.wf(),
        0 <= hw1 <= RADIUS_LIMIT,
        0 <= hh1 <= RADIUS_LIMIT,
        0 <= hw2 <= RADIUS_LIMIT,
        0 <= hh2 <= RADIUS_LIMIT,
    ensures
        b == rects_overlap(*t1, hw1 as int, hh1 as int, *t2, hw2 as int, hh2 as int),
{
    let dx: i128 = (t1.x as i128) - (t2.x as i128);
    let dy: i128 = (t1.y as i128) - (t2.y as i128);
    let adx: i128 = if dx >= 0 {
        dx
    } else {
        -dx
    };
    let ady: i128 = if dy >= 0 {
        dy
    } else {
        -dy
    };
    adx < (hw1 as i128) + (hw2 as i128) && ady < (hh1 as i128) + (hh2 as i128)
}

/// Exact overlap test for any two shapes.
pub fn shape_overlaps_shape(
    t1: &Transform,
    s1: &CollisionShape,
    t2: &Transform,
    s2: &CollisionShape,
) -> (b: bool)
    requires
        t1.wf(),
        t2.wf(),
        s1.wf(),
        s2.wf(),
    ensures
        b == shapes_overlap(*t1, *s1, *t2, *s2),
{
    match (s1, s2) {
        (CollisionShape::Circle(r1), CollisionShape::Circle(r2)) => circle_overlaps_circle(
            t1,
            *r1,
            t2,
            *r2,
        ),
        (CollisionShape::Circle(r1), CollisionShape::Rect(hw, hh)) => circle_overlaps_rect(
            t1,
            *r1,
            t2,
            *hw,
            *hh,
        ),
        (CollisionShape::Rect(hw, hh), CollisionShape::Circle(r2)) => circle_overlaps_rect(
            t2,
            *r2,
            t1,
            *hw,
            *hh,
        ),
        (CollisionShape::Rect(hw1, hh1), CollisionShape::Rect(hw2, hh2)) => rect_overlaps_rect(
            t1,
            *hw1,
            *hh1,
            t2,
            *hw2,
            *hh2,
        ),
    }
}

/// Exact overlap test of a circle against any collider's shape.
pub fn circle_overlaps_collider(t1: &Transform, r1: i64, t2: &Transform, c2: &Collider) -> (b:
    bool)
    requires
        t1.wf(),
        t2.wf(),
        0 <= r1 <= RADIUS_LIMIT,
        c2.wf(),
    ensures
        b == shapes_overlap(*t1, CollisionShape::Circle(r1), *t2, c2.shape),
{
    let s1 = CollisionShape::Circle(r1);
    shape_overlaps_shape(t1, &s1, t2, &c2.shape)
}

/// Exact overlap test of two colliders' shapes.
pub fn collider_overlaps_collider(
    t1: &Transform,
    c1: &Collider,
    t2: &Transform,
    c2: &Collider,
) -> (b: bool)
    requires
        t1.wf(),
        t2.wf(),
        c1.wf(),
        c2.wf(),
    ensures
        b == shapes_overlap(*t1, c1.shape, *t2, c2.shape),
{
    shape_overlaps_shape(t1, &c1.shape, t2, &c2.shape)
}

/// One pairwise overlap result: the two sides' shapes, masks and
/// transforms at the moment of detection, the other entity's
/// identifier, and the contact normal. Records live only for the step
/// in which they were produced.
#[derive(Clone, Copy, Debug, PartialEq, Eq, Structural)]
pub struct Collision {
    pub entity1: u64,
    pub entity2: u64,
    pub shape1: CollisionShape,
    pub collision_layer1: u64,
    pub collides_with1: u64,
    pub shape2: CollisionShape,
    pub collision_layer2: u64,
    pub collides_with2: u64,
    pub transform1: Transform,
    pub transform2: Transform,
    pub normal_x: i64,
    pub normal_y: i64,
}

impl Collision {
    pub fn new(
        entity1: u64,
        entity2: u64,
        shape1: CollisionShape,
        collision_layer1: u64,
        collides_with1: u64,
        shape2: CollisionShape,
        collision_layer2: u64,
        collides_with2: u64,
        transform1: Transform,
        transform2: Transform,
        normal_x: i64,
        normal_y: i64,
    ) -> (c: Collision)
        ensures
            c == (Collision {
                entity1,
                entity2,
                shape1,
                collision_layer1,
                collides_with1,
                shape2,
                collision_layer2,
                collides_with2,
                transform1,
                transform2,
                normal_x,
                normal_y,
            }),
    {
        Collision {
            entity1,
            entity2,
            shape1,
            collision_layer1,
            collides_with1,
            shape2,
            collision_layer2,
            collides_with2,
            transform1,
            transform2,
            normal_x,
            normal_y,
        }
    }
}

/// What every stored overlap record guarantees its consumers: the
/// recorded transforms and shapes are in range and the contact normal
/// is bounded by the shape extents.
pub open spec fn record_wf(c: Collision) -> bool {
    c.transform1.wf() && c.transform2.wf() && absi(c.normal_x as int) <= 2 * RADIUS_LIMIT && absi(
        c.normal_y as int,
    ) <= 2 * RADIUS_LIMIT && c.shape1.wf() && c.shape2.wf()
}

/// A shape with its two 64-bit layer masks and the overlap records
/// produced for it during the current step.
#[derive(Clone, Debug)]
pub struct Collider {
    pub shape: CollisionShape,
    pub collision_layer: u64,
    pub collides_with: u64,
    pub overlapping: Vec<Collision>,
}

impl Collider {
    pub open spec fn wf(self) -> bool {
        self.shape.wf() && forall|i: int|
            0 <= i < self.overlapping@.len() ==> record_wf(#[trigger] self.overlapping@[i])
    }

    /// A circular collider with an empty overlap list.
    pub fn circle(radius: i64, collision_layer: u64, collides_with: u64) -> (c: Collider)
        requires
            0 <= radius <= RADIUS_LIMIT,
        ensures
            c.shape == CollisionShape::Circle(radius),
            c.collision_layer == collision_layer,
            c.collides_with == collides_with,
            c.overlapping@ == Seq::<Collision>::empty(),
            c.wf(),
    {
        Collider { shape: CollisionShape::Circle(radius), collision_layer, collides_with, overlapping: Vec::new() }
    }

    /// A box collider given by half extents, with an empty overlap list.
    pub fn half_extents(hw: i64, hh: i64, collision_layer: u64, collides_with: u64) -> (c:
        Collider)
        requires
            0 <= hw <= RADIUS_LIMIT,
            0 <= hh <= RADIUS_LIMIT,
        ensures
            c.shape == CollisionShape::Rect(hw, hh),
            c.collision_layer == collision_layer,
            c.collides_with == collides_with,
            c.overlapping@ == Seq::<Collision>::empty(),
            c.wf(),
    {
        Collider { shape: CollisionShape::Rect(hw, hh), collision_layer, collides_with, overlapping: Vec::new() }
    }
}

/// Fresh copies of a collider list: the same shapes and masks, with
/// empty overlap lists.
#[verifier::loop_isolation(false)]
pub(crate) fn fresh_copies(src: &Vec<Collider>) -> (out: Vec<Collider>)
    requires
        forall|i: int| 0 <= i < src@.len() ==> (#[trigger] src@[i]).wf(),
    ensures
        out@.len() == src@.len(),
        forall|i: int|
            0 <= i < out@.len() ==> (#[trigger] out@[i]).shape == src@[i].shape
                && out@[i].collision_layer == src@[i].collision_layer && out@[i].collides_with
                == src@[i].collides_with && out@[i].overlapping@.len() == 0 && out@[i].wf(),
{
    let mut out: Vec<Collider> = Vec::new();
    let mut i: usize = 0;
    while i < src.len()
        invariant
            i <= src@.len(),
            out@.len() == i,
            forall|j: int|
                0 <= j < i ==> (#[trigger] out@[j]).shape == src@[j].shape
                    && out@[j].collision_layer == src@[j].collision_layer
                    && out@[j].collides_with == src@[j].collides_with
                    && out@[j].overlapping@.len() == 0 && out@[j].wf(),
        decreases src@.len() - i,
    {
        let sc = &src[i];
        let fresh: Vec<Collision> = Vec::new();
        let c = Collider {
            shape: sc.shape,
            collision_layer: sc.collision_layer,
            collides_with: sc.collides_with,
            overlapping: fresh,
        };
        out.push(c);
        proof {
            assert(src@[i as int].wf());
            assert(out@[i as int] == c);
        }
        i = i + 1;
    }
    out
}

/// A body: the solid colliders that block collision-aware movement and
/// the detect-only sensors, owned by exactly one entity.
#[derive(Clone, Debug)]
pub struct CollisionBody {
    pub colliders: Vec<Collider>,
    pub sensors: Vec<Collider>,
}

impl CollisionBody {
    pub open spec fn wf(self) -> bool {
        (forall|i: int| 0 <= i < self.colliders@.len() ==> #[trigger] self.colliders@[i].wf())
            && (forall|i: int|
            0 <= i < self.sensors@.len() ==> #[trigger] self.sensors@[i].wf())
    }

    /// A body of a single solid collider.
    pub fn new(collider: Collider) -> (b: CollisionBody)
        requires
            collider.wf(),
        ensures
            b.colliders@ == seq![collider],
            b.sensors@ == Seq::<Collider>::empty(),
            b.wf(),
    {
        let mut colliders: Vec<Collider> = Vec::new();
        colliders.push(collider);
        let b = CollisionBody { colliders, sensors: Vec::new() };
        proof {
            assert(b.colliders@ =~= seq![collider]);
        }
        b
    }

    /// A body of a single solid collider.
    pub fn from_collider(collider: Collider) -> (b: CollisionBody)
        requires
            collider.wf(),
        ensures
            b.colliders@ == seq![collider],
            b.sensors@ == Seq::<Collider>::empty(),
            b.wf(),
    {
        CollisionBody::new(collider)
    }

    /// A body of a single detect-only sensor.
    pub fn from_sensor(sensor: Collider) -> (b: CollisionBody)
        requires
            sensor.wf(),
        ensures
            b.sensors@ == seq![sensor],
            b.colliders@ == Seq::<Collider>::empty(),
            b.wf(),
    {
        let mut sensors: Vec<Collider> = Vec::new();
        sensors.push(sensor);
        let b = CollisionBody { colliders: Vec::new(), sensors };
        proof {
            assert(b.sensors@ =~= seq![sensor]);
        }
        b
    }

    /// A body from explicit collider and sensor lists.
    pub fn from_parts(colliders: Vec<Collider>, sensors: Vec<Collider>) -> (b: CollisionBody)
        requires
            forall|i: int| 0 <= i < colliders@.len() ==> #[trigger] colliders@[i].wf(),
            forall|i: int| 0 <= i < sensors@.len() ==> #[trigger] sensors@[i].wf(),
        ensures
            b.colliders@ == colliders@,
            b.sensors@ == sensors@,
            b.wf(),
    {
        CollisionBody { colliders, sensors }
    }

    /// A fresh copy of a body's shapes and masks, with empty overlap
    /// lists: what an asteroid split hands to the sibling it spawns.
    pub fn from_body(body: &CollisionBody) -> (b: CollisionBody)
        requires
            body.wf(),
        ensures
            b.wf(),
            b.colliders@.len() == body.colliders@.len(),
            b.sensors@.len() == body.sensors@.len(),
            forall|i: int|
                0 <= i < b.colliders@.len() ==> #[trigger] b.colliders@[i].shape
                    == body.colliders@[i].shape && b.colliders@[i].collision_layer
                    == body.colliders@[i].collision_layer && b.colliders@[i].collides_with
                    == body.colliders@[i].collides_with && b.colliders@[i].overlapping@.len()
                    == 0,
            forall|i: int|
                0 <= i < b.sensors@.len() ==> #[trigger] b.sensors@[i].shape
                    == body.sensors@[i].shape && b.sensors@[i].collision_layer
                    == body.sensors@[i].collision_layer && b.sensors@[i].collides_with
                    == body.sensors@[i].collides_with && b.sensors@[i].overlapping@.len() == 0,
    {
        let mut colliders: Vec<Collider> = Vec::new();
        let mut i: usize = 0;
        while i < body.colliders.len()
            invariant
                body.wf(),
                i <= body.colliders@.len(),
                colliders@.len() == i,
                forall|j: int|
                    0 <= j < i ==> #[trigger] colliders@[j].shape == body.colliders@[j].shape
                        && colliders@[j].collision_layer == body.colliders@[j].collision_layer
                        && colliders@[j].collides_with == body.colliders@[j].collides_with
                        && colliders@[j].overlapping@.len() == 0 && colliders@[j].wf(),
            decreases body.colliders@.len() - i,
        {
            let src = &body.colliders[i];
            let fresh: Vec<Collision> = Vec::new();
            let c = Collider {
                shape: src.shape,
                collision_layer: src.collision_layer,
                collides_with: src.collides_with,
                overlapping: fresh,
            };
            let ghost prev = colliders@;
            colliders.push(c);
            proof {
                assert(body.colliders@[i as int].wf());
                assert(colliders@[i as int] == c);
                assert(forall|j: int| 0 <= j < i ==> #[trigger] colliders@[j] == prev[j]);
            }
            i = i + 1;
        }
        let mut sensors: Vec<Collider> = Vec::new();
        let mut i: usize = 0;
        while i < body.sensors.len()
            invariant
                body.wf(),
                i <= body.sensors@.len(),
                sensors@.len() == i,
                forall|j: int|
                    0 <= j < i ==> #[trigger] sensors@[j].shape == body.sensors@[j].shape
                        && sensors@[j].collision_layer == body.sensors@[j].collision_layer
                        && sensors@[j].collides_with == body.sensors@[j].collides_with
                        && sensors@[j].overlapping@.len() == 0 && sensors@[j].wf(),
            decreases body.sensors@.len() - i,
        {
            let src = &body.sensors[i];
            let fresh: Vec<Collision> = Vec::new();
            let c = Collider {
                shape: src.shape,
                collision_layer: src.collision_layer,
                collides_with: src.collides_with,
                overlapping: fresh,
            };
            let ghost prev = sensors@;
            sensors.push(c);
            proof {
                assert(body.sensors@[i as int].wf());
                assert(sensors@[i as int] == c);
                assert(forall|j: int| 0 <= j < i ==> #[trigger] sensors@[j] == prev[j]);
            }
            i = i + 1;
        }
        CollisionBody { colliders, sensors }
    }
}

} // verus!
