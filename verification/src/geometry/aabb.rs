//! Axis-aligned bounding boxes: containment, union, and the exact slab-method
//! ray intersection, including the inside (exit-point) case used by k-d tree
//! traversal.

use vstd::prelude::*;
use crate::vecmath::{
    Vec3,
    Rat,
    QVec,
    clamp_coord,
    opt_min_spec,
    opt_max_spec,
    opt_min,
    opt_max,
    opt_rat_wf,
};
use crate::common::{Ray, ColliderResult, Entity};
use crate::material::Material;

verus! {

#[derive(Clone, Copy, PartialEq, Eq, Structural, Debug)]
pub struct AABB {
    pub min: Vec3,
    pub max: Vec3,
}

pub open spec fn imin(a: int, b: int) -> int {
    if a <= b {
        a
    } else {
        b
    }
}

pub open spec fn imax(a: int, b: int) -> int {
    if a >= b {
        a
    } else {
        b
    }
}

pub(crate) fn min_i64(a: i64, b: i64) -> (r: i64)
    ensures
        r == imin(a as int, b as int),
{
    if a <= b {
        a
    } else {
        b
    }
}

pub(crate) fn max_i64(a: i64, b: i64) -> (r: i64)
    ensures
        r == imax(a as int, b as int),
{
    if a >= b {
        a
    } else {
        b
    }
}

/// `outer` contains `inner` as a region (componentwise).
pub open spec fn contains_box_spec(outer: AABB, inner: AABB) -> bool {
    &&& outer.min.x <= inner.min.x
    &&& outer.min.y <= inner.min.y
    &&& outer.min.z <= inner.min.z
    &&& inner.max.x <= outer.max.x
    &&& inner.max.y <= outer.max.y
    &&& inner.max.z <= outer.max.z
}

impl AABB {
    /// Corners on the grid, componentwise ordered.
    pub open spec fn wf(self) -> bool {
        &&& self.min.wf()
        &&& self.max.wf()
        &&& self.min.x <= self.max.x
        &&& self.min.y <= self.max.y
        &&& self.min.z <= self.max.z
    }

    pub fn new(min: Vec3, max: Vec3) -> (r: AABB)
        requires
            min.wf(),
            max.wf(),
            min.x <= max.x,
            min.y <= max.y,
            min.z <= max.z,
        ensures
            r == (AABB { min, max }),
            r.wf(),
    {
        AABB { min, max }
    }

    pub fn default() -> (r: AABB)
        ensures
            r == (AABB { min: Vec3 { x: 0, y: 0, z: 0 }, max: Vec3 { x: 0, y: 0, z: 0 } }),
            r.wf(),
    {
        AABB { min: Vec3 { x: 0, y: 0, z: 0 }, max: Vec3 { x: 0, y: 0, z: 0 } }
    }

    /// The grid point `p` lies within the box, boundary inclusive.
    pub open spec fn contains_spec(self, p: Vec3) -> bool {
        &&& self.min.x <= p.x <= self.max.x
        &&& self.min.y <= p.y <= self.max.y
        &&& self.min.z <= p.z <= self.max.z
    }

    pub fn contains(&self, point: &Vec3) -> (r: bool)
        ensures
            r == self.contains_spec(*point),
    {
        if point.x > self.max.x || point.x < self.min.x {
            return false;
        }
        if point.y > self.max.y || point.y < self.min.y {
            return false;
        }
        if point.z > self.max.z || point.z < self.min.z {
            return false;
        }
        true
    }

    /// The rational point `p` lies within the box, boundary inclusive.
    pub open spec fn contains_q_spec(self, p: QVec) -> bool {
        &&& self.min.x * p.den <= p.nx <= self.max.x * p.den
        &&& self.min.y * p.den <= p.ny <= self.max.y * p.den
        &&& self.min.z * p.den <= p.nz <= self.max.z * p.den
    }

    pub fn contains_q(&self, p: &QVec) -> (r: bool)
        requires
            self.wf(),
            p.wf(),
        ensures
            r == self.contains_q_spec(*p),
    {
        let xo = !p.axis_lt_int(0, self.min.x) && !p.axis_gt_int(0, self.max.x);
        let yo = !p.axis_lt_int(1, self.min.y) && !p.axis_gt_int(1, self.max.y);
        let zo = !p.axis_lt_int(2, self.min.z) && !p.axis_gt_int(2, self.max.z);
        xo && yo && zo
    }

    /// Componentwise union of two boxes.
    pub open spec fn union2_spec(a: AABB, b: AABB) -> AABB {
        AABB {
            min: Vec3 {
                x: imin(a.min.x as int, b.min.x as int) as i64,
                y: imin(a.min.y as int, b.min.y as int) as i64,
                z: imin(a.min.z as int, b.min.z as int) as i64,
            },
            max: Vec3 {
                x: imax(a.max.x as int, b.max.x as int) as i64,
                y: imax(a.max.y as int, b.max.y as int) as i64,
                z: imax(a.max.z as int, b.max.z as int) as i64,
            },
        }
    }

    /// Union of a non-empty sequence of boxes, folded left to right.
    pub open spec fn union_of(s: Seq<AABB>) -> AABB
        decreases s.len(),
    {
        if s.len() <= 1 {
            s[0]
        } else {
            AABB::union2_spec(AABB::union_of(s.drop_last()), s.last())
        }
    }

    fn union2(a: &AABB, b: &AABB) -> (r: AABB)
        requires
            a.wf(),
            b.wf(),
        ensures
            r == AABB::union2_spec(*a, *b),
            r.wf(),
            contains_box_spec(r, *a),
            contains_box_spec(r, *b),
    {
        AABB {
            min: Vec3 {
                x: min_i64(a.min.x, b.min.x),
                y: min_i64(a.min.y, b.min.y),
                z: min_i64(a.min.z, b.min.z),
            },
            max: Vec3 {
                x: max_i64(a.max.x, b.max.x),
                y: max_i64(a.max.y, b.max.y),
                z: max_i64(a.max.z, b.max.z),
            },
        }
    }

    /// Union bounding box over a non-empty entity list. The result is the
    /// exact componentwise min/max fold, and it contains every individual
    /// entity's box.
    pub fn from_entities<T: Entity>(entities: &Vec<T>) -> (r: AABB)
        requires
            entities@.len() > 0,
            forall|i: int| 0 <= i < entities@.len() ==> (#[trigger] entities@[i]).wf(),
        ensures
            r == AABB::union_of(Seq::new(entities@.len(), |i: int| entities@[i].bb_spec())),
            r.wf(),
            forall|i: int|
                0 <= i < entities@.len() ==> contains_box_spec(
                    r,
                    (#[trigger] entities@[i]).bb_spec(),
                ),
    {
        let ghost boxes = Seq::new(entities@.len(), |i: int| entities@[i].bb_spec());
        let mut bb = entities[0].bounding_box();
        let mut i: usize = 1;
        proof {
            assert(boxes.take(1).len() == 1);
            assert(boxes.take(1)[0] == boxes[0]);
            assert(bb == AABB::union_of(boxes.take(1)));
        }
        while i < entities.len()
            invariant
                1 <= i <= entities@.len(),
                boxes == Seq::new(entities@.len(), |j: int| entities@[j].bb_spec()),
                forall|j: int| 0 <= j < entities@.len() ==> (#[trigger] entities@[j]).wf(),
                bb == AABB::union_of(boxes.take(i as int)),
                bb.wf(),
                forall|j: int| 0 <= j < i ==> contains_box_spec(bb, boxes[j]),
            decreases entities@.len() - i,
        {
            let next = entities[i].bounding_box();
            let merged = AABB::union2(&bb, &next);
            proof {
                assert(boxes.take(i as int + 1).drop_last() =~= boxes.take(i as int));
                assert(boxes.take(i as int + 1).last() == boxes[i as int]);
            }
            bb = merged;
            i = i + 1;
        }
        proof {
            assert(boxes.take(entities@.len() as int) =~= boxes);
            assert forall|j: int| 0 <= j < entities@.len() implies contains_box_spec(
                bb,
                (#[trigger] entities@[j]).bb_spec(),
            ) by {
                assert(boxes[j] == entities@[j].bb_spec());
            }
        }
        bb
    }

    /// One axis of the rejection test: the origin is beyond a slab and the
    /// direction does not travel back toward the box.
    pub open spec fn reject_axis_spec(self, r: Ray, a: int) -> bool {
        let o = r.origin.axis_spec(a);
        let d = r.direction.axis_spec(a);
        ||| (o < self.min.axis_spec(a) && d <= 0)
        ||| (o > self.max.axis_spec(a) && d >= 0)
    }

    pub open spec fn slab_reject_spec(self, r: Ray) -> bool {
        ||| self.reject_axis_spec(r, 0)
        ||| self.reject_axis_spec(r, 1)
        ||| self.reject_axis_spec(r, 2)
    }

    /// For an origin inside the box: the exit parameter along axis `a`
    /// (`None` when the slab never constrains the ray).
    pub open spec fn inside_candidate_spec(self, r: Ray, a: int) -> Option<Rat> {
        let o = r.origin.axis_spec(a);
        let d = r.direction.axis_spec(a);
        if d > 0 {
            Some(Rat { num: (self.max.axis_spec(a) - o) as i128, den: d as i128 })
        } else if d < 0 {
            Some(Rat { num: (o - self.min.axis_spec(a)) as i128, den: (-d) as i128 })
        } else if o == self.min.axis_spec(a) || o == self.max.axis_spec(a) {
            Some(Rat { num: 0, den: 1 })
        } else {
            None
        }
    }

    /// Exit parameter for an inside origin: the earliest of the per-axis
    /// candidates.
    pub open spec fn inside_exit_opt_spec(self, r: Ray) -> Option<Rat> {
        opt_min_spec(
            self.inside_candidate_spec(r, 0),
            opt_min_spec(self.inside_candidate_spec(r, 1), self.inside_candidate_spec(r, 2)),
        )
    }

    /// For an origin outside the box (and not rejected): the entry parameter
    /// toward the near face on axis `a`.
    pub open spec fn entry_candidate_spec(self, r: Ray, a: int) -> Option<Rat> {
        let o = r.origin.axis_spec(a);
        let d = r.direction.axis_spec(a);
        if o < self.min.axis_spec(a) {
            Some(Rat { num: (self.min.axis_spec(a) - o) as i128, den: d as i128 })
        } else if o > self.max.axis_spec(a) {
            Some(Rat { num: (o - self.max.axis_spec(a)) as i128, den: (-d) as i128 })
        } else {
            None
        }
    }

    /// Entry parameter for an outside origin: the latest per-axis candidate,
    /// where all three slabs agree.
    pub open spec fn entry_opt_spec(self, r: Ray) -> Option<Rat> {
        opt_max_spec(
            self.entry_candidate_spec(r, 0),
            opt_max_spec(self.entry_candidate_spec(r, 1), self.entry_candidate_spec(r, 2)),
        )
    }

    /// The point `p` stays within the box when nudged forward along `d`:
    /// strictly within each slab, or on a face the ray does not leave
    /// through.
    pub open spec fn axis_forward_ok_spec(self, p: QVec, d: Vec3, a: int) -> bool {
        let pn = p.axis_num_spec(a);
        let mn = self.min.axis_spec(a) * p.den;
        let mx = self.max.axis_spec(a) * p.den;
        ||| (mn < pn < mx)
        ||| (pn == mn && d.axis_spec(a) >= 0)
        ||| (pn == mx && d.axis_spec(a) <= 0)
    }

    pub open spec fn forward_ok_spec(self, p: QVec, d: Vec3) -> bool {
        &&& self.axis_forward_ok_spec(p, d, 0)
        &&& self.axis_forward_ok_spec(p, d, 1)
        &&& self.axis_forward_ok_spec(p, d, 2)
    }

    /// The full intersection rule: what `collide` returns, exactly.
    pub open spec fn collide_rule(self, r: Ray) -> ColliderResult {
        if self.slab_reject_spec(r) {
            ColliderResult::negative_spec()
        } else if self.contains_spec(r.origin) {
            match self.inside_exit_opt_spec(r) {
                Some(t) => ColliderResult {
                    collision: true,
                    t,
                    position: r.parameterize_spec(t),
                    normal: Vec3 { x: 0, y: 0, z: 0 },
                    material: None,
                },
                None => ColliderResult::negative_spec(),
            }
        } else {
            match self.entry_opt_spec(r) {
                Some(t) => if self.forward_ok_spec(r.parameterize_spec(t), r.direction) {
                    ColliderResult {
                        collision: true,
                        t,
                        position: r.parameterize_spec(t),
                        normal: Vec3 { x: 0, y: 0, z: 0 },
                        material: None,
                    }
                } else {
                    ColliderResult::negative_spec()
                },
                None => ColliderResult::negative_spec(),
            }
        }
    }

    fn reject_axis(&self, r: &Ray, a: usize) -> (out: bool)
        requires
            a < 3,
        ensures
            out == self.reject_axis_spec(*r, a as int),
    {
        let o = r.origin.axis(a);
        let d = r.direction.axis(a);
        (o < self.min.axis(a) && d <= 0) || (o > self.max.axis(a) && d >= 0)
    }

    fn inside_candidate(&self, r: &Ray, a: usize) -> (c: Option<Rat>)
        requires
            a < 3,
            self.wf(),
            r.wf(),
            self.contains_spec(r.origin),
        ensures
            c == self.inside_candidate_spec(*r, a as int),
            opt_rat_wf(c),
            c matches Some(t) ==> t.num >= 0,
    {
        let o = r.origin.axis(a);
        let d = r.direction.axis(a);
        if d > 0 {
            Some(Rat { num: (self.max.axis(a) - o) as i128, den: d as i128 })
        } else if d < 0 {
            Some(Rat { num: (o - self.min.axis(a)) as i128, den: (-d) as i128 })
        } else if o == self.min.axis(a) || o == self.max.axis(a) {
            Some(Rat { num: 0, den: 1 })
        } else {
            None
        }
    }

    fn entry_candidate(&self, r: &Ray, a: usize) -> (c: Option<Rat>)
        requires
            a < 3,
            self.wf(),
            r.wf(),
            !self.slab_reject_spec(*r),
        ensures
            c == self.entry_candidate_spec(*r, a as int),
            opt_rat_wf(c),
            c matches Some(t) ==> t.num >= 0,
    {
        let o = r.origin.axis(a);
        let d = r.direction.axis(a);
        if o < self.min.axis(a) {
            Some(Rat { num: (self.min.axis(a) - o) as i128, den: d as i128 })
        } else if o > self.max.axis(a) {
            Some(Rat { num: (o - self.max.axis(a)) as i128, den: (-d) as i128 })
        } else {
            None
        }
    }

    /// The far-face parameter on axis `a` for any origin (the same candidate
    /// rule the inside case uses; traversal reads the exit of a leaf box off
    /// the original ray).
    pub(crate) fn exit_candidate(&self, r: &Ray, a: usize) -> (c: Option<Rat>)
        requires
            a < 3,
            self.wf(),
            r.wf(),
        ensures
            c == self.inside_candidate_spec(*r, a as int),
            opt_rat_wf(c),
    {
        let o = r.origin.axis(a);
        let d = r.direction.axis(a);
        if d > 0 {
            Some(Rat { num: (self.max.axis(a) - o) as i128, den: d as i128 })
        } else if d < 0 {
            Some(Rat { num: (o - self.min.axis(a)) as i128, den: (-d) as i128 })
        } else if o == self.min.axis(a) || o == self.max.axis(a) {
            Some(Rat { num: 0, den: 1 })
        } else {
            None
        }
    }

    /// The exit parameter of the ray from this box: the earliest far-face
    /// candidate.
    pub fn exit_param(&self, r: &Ray) -> (c: Option<Rat>)
        requires
            self.wf(),
            r.wf(),
        ensures
            c == self.inside_exit_opt_spec(*r),
            opt_rat_wf(c),
    {
        let c0 = self.exit_candidate(r, 0);
        let c1 = self.exit_candidate(r, 1);
        let c2 = self.exit_candidate(r, 2);
        opt_min(c0, opt_min(c1, c2))
    }

    fn forward_ok(&self, p: &QVec, d: &Vec3, a: usize) -> (out: bool)
        requires
            a < 3,
            self.wf(),
            p.wf(),
            d.wf(),
        ensures
            out == self.axis_forward_ok_spec(*p, *d, a as int),
    {
        let mn = self.min.axis(a);
        let mx = self.max.axis(a);
        let da = d.axis(a);
        (p.axis_gt_int(a, mn) && p.axis_lt_int(a, mx)) || (p.axis_eq_int(a, mn) && da >= 0) || (
        p.axis_eq_int(a, mx) && da <= 0)
    }
}

/// For a ray whose origin lies inside the box, `collide` reports a hit at
/// the exit point — the earliest far-face candidate along the travel
/// direction, never later than any axis's exit and never an entry point
/// (every candidate is taken toward the far face).
pub proof fn lemma_collide_inside_exits(b: AABB, r: Ray)
    requires
        b.wf(),
        r.wf(),
        b.contains_spec(r.origin),
    ensures
        b.collide_rule(r).collision,
        Some(b.collide_rule(r).t) == b.inside_exit_opt_spec(r),
        forall|a: int|
            0 <= a < 3 ==> match #[trigger] b.inside_candidate_spec(r, a) {
                Some(c) => b.collide_rule(r).t.le_spec(c),
                None => true,
            },
        b.collide_rule(r).position == r.parameterize_spec(b.collide_rule(r).t),
        b.collide_rule(r).t.num >= 0,
{
    assert(!b.slab_reject_spec(r));
    assert(!(r.direction.x == 0 && r.direction.y == 0 && r.direction.z == 0));
    if r.direction.x != 0 {
        assert(b.inside_candidate_spec(r, 0) is Some);
    } else if r.direction.y != 0 {
        assert(b.inside_candidate_spec(r, 1) is Some);
    } else {
        assert(b.inside_candidate_spec(r, 2) is Some);
    }
    assert(b.inside_exit_opt_spec(r) is Some);
    let t = b.collide_rule(r).t;
    assert(Some(t) == b.inside_exit_opt_spec(r));
    let c0 = b.inside_candidate_spec(r, 0);
    let c1 = b.inside_candidate_spec(r, 1);
    let c2 = b.inside_candidate_spec(r, 2);
    let m12 = opt_min_spec(c1, c2);
    if c1 is Some && c2 is Some {
        let x1 = c1.unwrap();
        let x2 = c2.unwrap();
        if x1.le_spec(x2) {
        } else {
            assert(x2.le_spec(x1));
        }
    }
    if c0 is Some && m12 is Some {
        let x0 = c0.unwrap();
        let y = m12.unwrap();
        if x0.le_spec(y) {
            if c1 is Some {
                lemma_rat_le_trans(x0, y, c1.unwrap());
            }
            if c2 is Some {
                lemma_rat_le_trans(x0, y, c2.unwrap());
            }
        } else {
            assert(y.le_spec(x0));
        }
    }
    assert forall|a: int|
        0 <= a < 3 implies match #[trigger] b.inside_candidate_spec(r, a) {
        Some(c) => t.le_spec(c),
        None => true,
    } by {
        if a == 0 {
        } else if a == 1 {
        } else {
        }
    }
}

/// Rational `<=` chains across a middle value (for positive denominators).
proof fn lemma_rat_le_trans(a: Rat, b: Rat, c: Rat)
    requires
        a.den > 0,
        b.den > 0,
        c.den > 0,
    ensures
        a.le_spec(b) && b.le_spec(c) ==> a.le_spec(c),
{
    assert(a.le_spec(b) && b.le_spec(c) ==> a.le_spec(c)) by (nonlinear_arith)
        requires
            a.den > 0,
            b.den > 0,
            c.den > 0,
    ;
}

impl Entity for AABB {
    open spec fn wf(&self) -> bool {
        AABB::wf(*self)
    }

    open spec fn collide_spec(&self, ray: Ray) -> ColliderResult {
        self.collide_rule(ray)
    }

    open spec fn bb_spec(&self) -> AABB {
        *self
    }

    open spec fn position_spec(&self) -> Vec3 {
        Vec3 {
            x: (self.min.x + (self.max.x - self.min.x) / 2) as i64,
            y: (self.min.y + (self.max.y - self.min.y) / 2) as i64,
            z: (self.min.z + (self.max.z - self.min.z) / 2) as i64,
        }
    }

    open spec fn translated_rel(pre: AABB, post: AABB, v: Vec3) -> bool {
        post == (AABB {
            min: Vec3 {
                x: clamp_coord(pre.min.x + v.x) as i64,
                y: clamp_coord(pre.min.y + v.y) as i64,
                z: clamp_coord(pre.min.z + v.z) as i64,
            },
            max: Vec3 {
                x: clamp_coord(pre.max.x + v.x) as i64,
                y: clamp_coord(pre.max.y + v.y) as i64,
                z: clamp_coord(pre.max.z + v.z) as i64,
            },
        })
    }

    open spec fn material_spec(&self) -> Option<Material> {
        None
    }

    /// Slab intersection. For an origin inside, the hit is the earliest exit
    /// toward a far face; for an origin outside, the latest slab entry,
    /// rejected when nudging it forward along the ray leaves the box. The
    /// normal is left zero: boxes here bound index nodes, not renderable
    /// surfaces.
    fn collide(&self, ray: &Ray) -> (res: ColliderResult)
    {
        if self.reject_axis(ray, 0) || self.reject_axis(ray, 1) || self.reject_axis(ray, 2) {
            return ColliderResult::negative();
        }
        if self.contains(&ray.origin) {
            let c0 = self.inside_candidate(ray, 0);
            let c1 = self.inside_candidate(ray, 1);
            let c2 = self.inside_candidate(ray, 2);
            match opt_min(c0, opt_min(c1, c2)) {
                Some(t) => {
                    let position = ray.parameterize(&t);
                    ColliderResult {
                        collision: true,
                        t,
                        position,
                        normal: Vec3 { x: 0, y: 0, z: 0 },
                        material: None,
                    }
                },
                None => ColliderResult::negative(),
            }
        } else {
            let e0 = self.entry_candidate(ray, 0);
            let e1 = self.entry_candidate(ray, 1);
            let e2 = self.entry_candidate(ray, 2);
            match opt_max(e0, opt_max(e1, e2)) {
                Some(t) => {
                    let position = ray.parameterize(&t);
                    if self.forward_ok(&position, &ray.direction, 0) && self.forward_ok(
                        &position,
                        &ray.direction,
                        1,
                    ) && self.forward_ok(&position, &ray.direction, 2) {
                        ColliderResult {
                            collision: true,
                            t,
                            position,
                            normal: Vec3 { x: 0, y: 0, z: 0 },
                            material: None,
                        }
                    } else {
                        ColliderResult::negative()
                    }
                },
                None => ColliderResult::negative(),
            }
        }
    }

    fn bounding_box(&self) -> (r: AABB) {
        AABB { min: self.min, max: self.max }
    }

    fn position(&self) -> (r: Vec3) {
        let half_x: i64 = (((self.max.x - self.min.x) as u64) / 2) as i64;
        let half_y: i64 = (((self.max.y - self.min.y) as u64) / 2) as i64;
        let half_z: i64 = (((self.max.z - self.min.z) as u64) / 2) as i64;
        Vec3 { x: self.min.x + half_x, y: self.min.y + half_y, z: self.min.z + half_z }
    }

    fn material(&self) -> (r: Option<&Material>) {
        None
    }

    fn translate(&mut self, v: Vec3) {
        self.min = self.min.add(&v);
        self.max = self.max.add(&v);
    }
}

} // verus!
