//! A scene: a set of entities of one kind behind its own spatial index.

use vstd::prelude::*;
use crate::vecmath::{Vec3, clamp_coord};
use crate::common::{Ray, ColliderResult, Entity};
use crate::geometry::aabb::AABB;
use crate::geometry::kdtree::{KDTree, kd_collide_spec, subtree_contains, node_translated};
use crate::material::Material;

verus! {

pub struct Scene<T> {
    pub tree: KDTree,
    pub models: Vec<T>,
    pub position: Vec3,
    pub aa_bb: AABB,
}

impl<T: Entity> Scene<T> {
    pub open spec fn wf_spec(self) -> bool {
        &&& self.tree.wf(self.models@.len() as int)
        &&& forall|i: int| 0 <= i < self.models@.len() ==> (#[trigger] self.models@[i]).wf()
        &&& self.aa_bb.wf()
        &&& self.position.wf()
    }

    /// Index a set of entities. The bounding box is their exact union; the
    /// tree is built over indices into the kept list, so every entity
    /// reaches at least one leaf.
    pub fn new(models: Vec<T>, position: Vec3) -> (s: Scene<T>)
        requires
            models@.len() > 0,
            forall|i: int| 0 <= i < models@.len() ==> (#[trigger] models@[i]).wf(),
            position.wf(),
        ensures
            s.wf_spec(),
            s.models@ == models@,
            s.position == position,
            s.aa_bb == AABB::union_of(Seq::new(models@.len(), |i: int| models@[i].bb_spec())),
            forall|e: usize|
                (e as int) < models@.len() ==> subtree_contains(
                    s.tree.nodes@,
                    s.tree.root as int,
                    e,
                ),
    {
        let aa_bb = AABB::from_entities(&models);
        let tree = KDTree::new(&models);
        Scene { tree, models, position, aa_bb }
    }
}

impl<T: Entity> Entity for Scene<T> {
    open spec fn wf(&self) -> bool {
        self.wf_spec()
    }

    open spec fn collide_spec(&self, ray: Ray) -> ColliderResult {
        kd_collide_spec(self.tree, self.models@, ray)
    }

    open spec fn bb_spec(&self) -> AABB {
        self.aa_bb
    }

    open spec fn position_spec(&self) -> Vec3 {
        self.position
    }

    open spec fn translated_rel(pre: Scene<T>, post: Scene<T>, v: Vec3) -> bool {
        &&& post.models@.len() == pre.models@.len()
        &&& forall|i: int|
            0 <= i < pre.models@.len() ==> T::translated_rel(
                pre.models@[i],
                #[trigger] post.models@[i],
                v,
            )
        &&& post.tree.nodes@.len() == pre.tree.nodes@.len()
        &&& forall|i: int|
            0 <= i < pre.tree.nodes@.len() ==> node_translated(
                pre.tree.nodes@[i],
                #[trigger] post.tree.nodes@[i],
                v,
            )
        &&& post.tree.ropes@ == pre.tree.ropes@
        &&& post.tree.root == pre.tree.root
        &&& post.position == (Vec3 {
            x: clamp_coord(pre.position.x + v.x) as i64,
            y: clamp_coord(pre.position.y + v.y) as i64,
            z: clamp_coord(pre.position.z + v.z) as i64,
        })
        &&& post.aa_bb == (AABB {
            min: Vec3 {
                x: clamp_coord(pre.aa_bb.min.x + v.x) as i64,
                y: clamp_coord(pre.aa_bb.min.y + v.y) as i64,
                z: clamp_coord(pre.aa_bb.min.z + v.z) as i64,
            },
            max: Vec3 {
                x: clamp_coord(pre.aa_bb.max.x + v.x) as i64,
                y: clamp_coord(pre.aa_bb.max.y + v.y) as i64,
                z: clamp_coord(pre.aa_bb.max.z + v.z) as i64,
            },
        })
    }

    open spec fn material_spec(&self) -> Option<Material> {
        None
    }

    fn collide(&self, ray: &Ray) -> (res: ColliderResult) {
        self.tree.collide(ray, &self.models)
    }

    fn bounding_box(&self) -> (r: AABB) {
        AABB { min: self.aa_bb.min, max: self.aa_bb.max }
    }

    fn position(&self) -> (r: Vec3) {
        Vec3 { x: self.position.x, y: self.position.y, z: self.position.z }
    }

    fn material(&self) -> (r: Option<&Material>) {
        None
    }

    fn translate(&mut self, v: Vec3) {
        let ghost pre_models = self.models@;
        let mut i: usize = 0;
        while i < self.models.len()
            invariant
                i <= self.models@.len(),
                self.models@.len() == pre_models.len(),
                v.wf(),
                forall|k: int| 0 <= k < i ==> T::translated_rel(
                    pre_models[k],
                    #[trigger] self.models@[k],
                    v,
                ),
                forall|k: int| 0 <= k < i ==> (#[trigger] self.models@[k]).wf(),
                forall|k: int| i <= k < pre_models.len() ==> #[trigger] self.models@[k]
                    == pre_models[k],
                forall|k: int| 0 <= k < pre_models.len() ==> (#[trigger] pre_models[k]).wf(),
                self.tree == old(self).tree,
                self.aa_bb == old(self).aa_bb,
                self.position == old(self).position,
            decreases self.models@.len() - i,
        {
            self.models[i].translate(v);
            i = i + 1;
        }
        self.tree.translate_nodes(v);
        self.aa_bb = AABB {
            min: self.aa_bb.min.add(&v),
            max: self.aa_bb.max.add(&v),
        };
        self.position = self.position.add(&v);
        proof {
            let n = self.models@.len() as int;
            assert forall|k: int| 0 <= k < self.tree.nodes@.len() implies crate::geometry::kdtree::node_wf(
                self.tree.nodes@,
                k,
                n,
            ) by {
                assert(crate::geometry::kdtree::node_wf(old(self).tree.nodes@, k, n));
            }
        }
    }
}

} // verus!
