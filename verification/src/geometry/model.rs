//! A model: a triangle soup behind its own spatial index, carrying one
//! material for all its faces. Reading a mesh from disk is the caller's
//! concern; the model is built from the triangle list.

use vstd::prelude::*;
use crate::vecmath::{Vec3, clamp_coord};
use crate::common::{Ray, ColliderResult, Entity, opt_material_eq};
use crate::geometry::aabb::AABB;
use crate::geometry::kdtree::{KDTree, kd_collide_spec, subtree_contains, node_translated};
use crate::geometry::triangle::Triangle;
use crate::material::Material;

verus! {

pub struct Model {
    pub material: Material,
    pub tree: KDTree,
    pub position: Vec3,
    pub triangles: Vec<Triangle>,
    pub aa_bb: AABB,
}

impl Model {
    pub open spec fn wf_spec(self) -> bool {
        &&& self.tree.wf(self.triangles@.len() as int)
        &&& forall|i: int| 0 <= i < self.triangles@.len() ==> (#[trigger] self.triangles@[i]).wf()
        &&& self.aa_bb.wf()
        &&& self.position.wf()
        &&& self.material.wf()
    }

    /// Build a model over a triangle list (as read and transformed by the
    /// caller) with the material all its faces share.
    pub fn new(triangles: Vec<Triangle>, material: Material, position: Vec3) -> (m: Model)
        requires
            triangles@.len() > 0,
            forall|i: int| 0 <= i < triangles@.len() ==> (#[trigger] triangles@[i]).wf(),
            position.wf(),
            material.wf(),
        ensures
            m.wf_spec(),
            m.triangles@ == triangles@,
            m.position == position,
            opt_material_eq(Some(m.material), Some(material)),
            m.aa_bb == AABB::union_of(
                Seq::new(triangles@.len(), |i: int| triangles@[i].bb_spec()),
            ),
            forall|e: usize|
                (e as int) < triangles@.len() ==> subtree_contains(
                    m.tree.nodes@,
                    m.tree.root as int,
                    e,
                ),
    {
        let aa_bb = AABB::from_entities(&triangles);
        let tree = KDTree::new(&triangles);
        Model { material, tree, position, triangles, aa_bb }
    }
}

impl Entity for Model {
    open spec fn wf(&self) -> bool {
        self.wf_spec()
    }

    /// A hit through the index, stamped with the model's own material
    /// (triangles carry none of their own).
    open spec fn collide_spec(&self, ray: Ray) -> ColliderResult {
        let k = kd_collide_spec(self.tree, self.triangles@, ray);
        if k.collision {
            ColliderResult { material: Some(self.material), ..k }
        } else {
            k
        }
    }

    open spec fn bb_spec(&self) -> AABB {
        self.aa_bb
    }

    open spec fn position_spec(&self) -> Vec3 {
        self.position
    }

    open spec fn translated_rel(pre: Model, post: Model, v: Vec3) -> bool {
        &&& post.triangles@.len() == pre.triangles@.len()
        &&& forall|i: int|
            0 <= i < pre.triangles@.len() ==> Triangle::translated_rel(
                pre.triangles@[i],
                #[trigger] post.triangles@[i],
                v,
            )
        &&& post.tree.nodes@.len() == pre.tree.nodes@.len()
        &&& forall|i: int|
            0 <= i < pre.tree.nodes@.len() ==> node_translated(
                pre.tree.nodes@[i],
                #[trigger] post.tree.nodes@[i],
                v,
            )
        &&& post.tree.ropes@ == pre.tree.ropes@
        &&& post.tree.root == pre.tree.root
        &&& post.material == pre.material
        &&& post.position == (Vec3 {
            x: clamp_coord(pre.position.x + v.x) as i64,
            y: clamp_coord(pre.position.y + v.y) as i64,
            z: clamp_coord(pre.position.z + v.z) as i64,
        })
        &&& post.aa_bb == (AABB {
            min: Vec3 {
                x: clamp_coord(pre.aa_bb.min.x + v.x) as i64,
                y: clamp_coord(pre.aa_bb.min.y + v.y) as i64,
                z: clamp_coord(pre.aa_bb.min.z + v.z) as i64,
            },
            max: Vec3 {
                x: clamp_coord(pre.aa_bb.max.x + v.x) as i64,
                y: clamp_coord(pre.aa_bb.max.y + v.y) as i64,
                z: clamp_coord(pre.aa_bb.max.z + v.z) as i64,
            },
        })
    }

    open spec fn material_spec(&self) -> Option<Material> {
        Some(self.material)
    }

    fn collide(&self, ray: &Ray) -> (res: ColliderResult) {
        let mut r = self.tree.collide(ray, &self.triangles);
        if r.collision {
            r.material = Some(self.material.clone());
        }
        r
    }

    fn bounding_box(&self) -> (r: AABB) {
        AABB { min: self.aa_bb.min, max: self.aa_bb.max }
    }

    fn position(&self) -> (r: Vec3) {
        Vec3 { x: self.position.x, y: self.position.y, z: self.position.z }
    }

    fn material(&self) -> (r: Option<&Material>) {
        Some(&self.material)
    }

    fn translate(&mut self, v: Vec3) {
        let ghost pre_tris = self.triangles@;
        let mut i: usize = 0;
        while i < self.triangles.len()
            invariant
                i <= self.triangles@.len(),
                self.triangles@.len() == pre_tris.len(),
                v.wf(),
                forall|k: int| 0 <= k < i ==> Triangle::translated_rel(
                    pre_tris[k],
                    #[trigger] self.triangles@[k],
                    v,
                ),
                forall|k: int| 0 <= k < i ==> (#[trigger] self.triangles@[k]).wf(),
                forall|k: int| i <= k < pre_tris.len() ==> #[trigger] self.triangles@[k]
                    == pre_tris[k],
                forall|k: int| 0 <= k < pre_tris.len() ==> (#[trigger] pre_tris[k]).wf(),
                self.tree == old(self).tree,
                self.aa_bb == old(self).aa_bb,
                self.position == old(self).position,
                self.material == old(self).material,
            decreases self.triangles@.len() - i,
        {
            self.triangles[i].translate(v);
            i = i + 1;
        }
        self.tree.translate_nodes(v);
        self.aa_bb = AABB {
            min: self.aa_bb.min.add(&v),
            max: self.aa_bb.max.add(&v),
        };
        self.position = self.position.add(&v);
        proof {
            let n = self.triangles@.len() as int;
            assert forall|k: int| 0 <= k < self.tree.nodes@.len() implies crate::geometry::kdtree::node_wf(
                self.tree.nodes@,
                k,
                n,
            ) by {
                assert(crate::geometry::kdtree::node_wf(old(self).tree.nodes@, k, n));
            }
        }
    }
}

} // verus!
