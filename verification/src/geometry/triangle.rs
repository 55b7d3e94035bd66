//! Triangles, intersected by an exact integer Möller–Trumbore test: all
//! barycentric conditions are decided by signs of triple products, with no
//! epsilon.

use vstd::prelude::*;
use crate::vecmath::{Vec3, Rat, clamp_coord, grid_dir_spec, grid_dir, lemma_mul_bound};
use crate::common::{Ray, ColliderResult, Entity};
use crate::geometry::aabb::{AABB, imin, imax, min_i64, max_i64};
use crate::material::Material;

verus! {

#[derive(Clone, Copy, PartialEq, Eq, Structural, Debug)]
pub struct Triangle {
    pub v0: Vec3,
    pub v1: Vec3,
    pub v2: Vec3,
    pub normal: Vec3,
}

impl Triangle {
    pub open spec fn wf_spec(self) -> bool {
        &&& self.v0.wf()
        &&& self.v1.wf()
        &&& self.v2.wf()
        &&& self.normal.wf()
    }

    pub fn new(v0: Vec3, v1: Vec3, v2: Vec3, normal: Vec3) -> (r: Triangle)
        requires
            v0.wf(),
            v1.wf(),
            v2.wf(),
            normal.wf(),
        ensures
            r == (Triangle { v0, v1, v2, normal }),
            r.wf_spec(),
    {
        Triangle { v0, v1, v2, normal }
    }

    /// The geometric normal: the edge cross product, scaled onto the grid.
    pub open spec fn computed_normal_spec(self) -> Vec3 {
        let e1x = self.v1.x - self.v0.x;
        let e1y = self.v1.y - self.v0.y;
        let e1z = self.v1.z - self.v0.z;
        let e2x = self.v2.x - self.v0.x;
        let e2y = self.v2.y - self.v0.y;
        let e2z = self.v2.z - self.v0.z;
        grid_dir_spec(e1y * e2z - e1z * e2y, e1z * e2x - e1x * e2z, e1x * e2y - e1y * e2x)
    }

    /// Recompute the stored normal from the vertices.
    pub fn compute_normal(&mut self)
        requires
            old(self).wf_spec(),
        ensures
            *final(self) == (Triangle { normal: old(self).computed_normal_spec(), ..*old(self) }),
            final(self).wf_spec(),
    {
        let e1x: i64 = self.v1.x - self.v0.x;
        let e1y: i64 = self.v1.y - self.v0.y;
        let e1z: i64 = self.v1.z - self.v0.z;
        let e2x: i64 = self.v2.x - self.v0.x;
        let e2y: i64 = self.v2.y - self.v0.y;
        let e2z: i64 = self.v2.z - self.v0.z;
        proof {
            lemma_mul_bound(e1y as int, e2z as int, 131072, 131072);
            lemma_mul_bound(e1z as int, e2y as int, 131072, 131072);
            lemma_mul_bound(e1z as int, e2x as int, 131072, 131072);
            lemma_mul_bound(e1x as int, e2z as int, 131072, 131072);
            lemma_mul_bound(e1x as int, e2y as int, 131072, 131072);
            lemma_mul_bound(e1y as int, e2x as int, 131072, 131072);
        }
        let cx: i128 = (e1y as i128) * (e2z as i128) - (e1z as i128) * (e2y as i128);
        let cy: i128 = (e1z as i128) * (e2x as i128) - (e1x as i128) * (e2z as i128);
        let cz: i128 = (e1x as i128) * (e2y as i128) - (e1y as i128) * (e2x as i128);
        self.normal = grid_dir(cx, cy, cz);
    }

    /// The exact Möller–Trumbore rule. With `a` the determinant
    /// `e1 · (d × e2)`: a parallel ray (`a == 0`) misses; the barycentric
    /// numerators `u` and `v` must satisfy `0 <= u`, `0 <= v`, `u + v <= |a|`
    /// (after orienting by the sign of `a`), and the hit parameter
    /// `t = (e2 · (s × e1)) / a` must be strictly positive.
    pub open spec fn collide_rule(self, r: Ray) -> ColliderResult {
        let e1x = self.v1.x - self.v0.x;
        let e1y = self.v1.y - self.v0.y;
        let e1z = self.v1.z - self.v0.z;
        let e2x = self.v2.x - self.v0.x;
        let e2y = self.v2.y - self.v0.y;
        let e2z = self.v2.z - self.v0.z;
        let dx = r.direction.x as int;
        let dy = r.direction.y as int;
        let dz = r.direction.z as int;
        let hx = dy * e2z - dz * e2y;
        let hy = dz * e2x - dx * e2z;
        let hz = dx * e2y - dy * e2x;
        let a = e1x * hx + e1y * hy + e1z * hz;
        if a == 0 {
            ColliderResult::negative_spec()
        } else {
            let sg: int = if a > 0 {
                1int
            } else {
                -1int
            };
            let aa = a * sg;
            let sx = r.origin.x - self.v0.x;
            let sy = r.origin.y - self.v0.y;
            let sz = r.origin.z - self.v0.z;
            let un = (sx * hx + sy * hy + sz * hz) * sg;
            if un < 0 || un > aa {
                ColliderResult::negative_spec()
            } else {
                let qx = sy * e1z - sz * e1y;
                let qy = sz * e1x - sx * e1z;
                let qz = sx * e1y - sy * e1x;
                let vn = (dx * qx + dy * qy + dz * qz) * sg;
                if vn < 0 || un + vn > aa {
                    ColliderResult::negative_spec()
                } else {
                    let tn = (e2x * qx + e2y * qy + e2z * qz) * sg;
                    if tn > 0 {
                        let t = Rat { num: tn as i128, den: aa as i128 };
                        ColliderResult {
                            collision: true,
                            t,
                            position: r.parameterize_spec(t),
                            normal: self.normal,
                            material: None,
                        }
                    } else {
                        ColliderResult::negative_spec()
                    }
                }
            }
        }
    }
}

impl Entity for Triangle {
    open spec fn wf(&self) -> bool {
        self.wf_spec()
    }

    open spec fn collide_spec(&self, ray: Ray) -> ColliderResult {
        self.collide_rule(ray)
    }

    open spec fn bb_spec(&self) -> AABB {
        AABB {
            min: Vec3 {
                x: imin(self.v0.x as int, imin(self.v1.x as int, self.v2.x as int)) as i64,
                y: imin(self.v0.y as int, imin(self.v1.y as int, self.v2.y as int)) as i64,
                z: imin(self.v0.z as int, imin(self.v1.z as int, self.v2.z as int)) as i64,
            },
            max: Vec3 {
                x: imax(self.v0.x as int, imax(self.v1.x as int, self.v2.x as int)) as i64,
                y: imax(self.v0.y as int, imax(self.v1.y as int, self.v2.y as int)) as i64,
                z: imax(self.v0.z as int, imax(self.v1.z as int, self.v2.z as int)) as i64,
            },
        }
    }

    open spec fn position_spec(&self) -> Vec3 {
        Vec3 {
            x: ((self.v0.x + self.v1.x + self.v2.x) / 3) as i64,
            y: ((self.v0.y + self.v1.y + self.v2.y) / 3) as i64,
            z: ((self.v0.z + self.v1.z + self.v2.z) / 3) as i64,
        }
    }

    open spec fn translated_rel(pre: Triangle, post: Triangle, v: Vec3) -> bool {
        post == (Triangle {
            v0: Vec3 {
                x: clamp_coord(pre.v0.x + v.x) as i64,
                y: clamp_coord(pre.v0.y + v.y) as i64,
                z: clamp_coord(pre.v0.z + v.z) as i64,
            },
            v1: Vec3 {
                x: clamp_coord(pre.v1.x + v.x) as i64,
                y: clamp_coord(pre.v1.y + v.y) as i64,
                z: clamp_coord(pre.v1.z + v.z) as i64,
            },
            v2: Vec3 {
                x: clamp_coord(pre.v2.x + v.x) as i64,
                y: clamp_coord(pre.v2.y + v.y) as i64,
                z: clamp_coord(pre.v2.z + v.z) as i64,
            },
            normal: pre.normal,
        })
    }

    open spec fn material_spec(&self) -> Option<Material> {
        None
    }

    fn collide(&self, ray: &Ray) -> (res: ColliderResult) {
        let e1x: i64 = self.v1.x - self.v0.x;
        let e1y: i64 = self.v1.y - self.v0.y;
        let e1z: i64 = self.v1.z - self.v0.z;
        let e2x: i64 = self.v2.x - self.v0.x;
        let e2y: i64 = self.v2.y - self.v0.y;
        let e2z: i64 = self.v2.z - self.v0.z;
        let dx: i64 = ray.direction.x;
        let dy: i64 = ray.direction.y;
        let dz: i64 = ray.direction.z;
        proof {
            lemma_mul_bound(dy as int, e2z as int, 65536, 131072);
            lemma_mul_bound(dz as int, e2y as int, 65536, 131072);
            lemma_mul_bound(dz as int, e2x as int, 65536, 131072);
            lemma_mul_bound(dx as int, e2z as int, 65536, 131072);
            lemma_mul_bound(dx as int, e2y as int, 65536, 131072);
            lemma_mul_bound(dy as int, e2x as int, 65536, 131072);
        }
        let hx: i128 = (dy as i128) * (e2z as i128) - (dz as i128) * (e2y as i128);
        let hy: i128 = (dz as i128) * (e2x as i128) - (dx as i128) * (e2z as i128);
        let hz: i128 = (dx as i128) * (e2y as i128) - (dy as i128) * (e2x as i128);
        proof {
            lemma_mul_bound(e1x as int, hx as int, 131072, 17179869184);
            lemma_mul_bound(e1y as int, hy as int, 131072, 17179869184);
            lemma_mul_bound(e1z as int, hz as int, 131072, 17179869184);
        }
        let a: i128 = (e1x as i128) * hx + (e1y as i128) * hy + (e1z as i128) * hz;
        if a == 0 {
            return ColliderResult::negative();
        }
        let sg: i128 = if a > 0 {
            1
        } else {
            -1
        };
        proof {
            lemma_mul_bound(a as int, sg as int, 6755399441055744, 1);
        }
        let aa: i128 = a * sg;
        let sx: i64 = ray.origin.x - self.v0.x;
        let sy: i64 = ray.origin.y - self.v0.y;
        let sz: i64 = ray.origin.z - self.v0.z;
        proof {
            lemma_mul_bound(sx as int, hx as int, 131072, 17179869184);
            lemma_mul_bound(sy as int, hy as int, 131072, 17179869184);
            lemma_mul_bound(sz as int, hz as int, 131072, 17179869184);
        }
        proof {
            lemma_mul_bound(
                (sx as int) * (hx as int) + (sy as int) * (hy as int) + (sz as int) * (hz as int),
                sg as int,
                6755399441055744,
                1,
            );
        }
        let un: i128 = ((sx as i128) * hx + (sy as i128) * hy + (sz as i128) * hz) * sg;
        if un < 0 || un > aa {
            return ColliderResult::negative();
        }
        proof {
            lemma_mul_bound(sy as int, e1z as int, 131072, 131072);
            lemma_mul_bound(sz as int, e1y as int, 131072, 131072);
            lemma_mul_bound(sz as int, e1x as int, 131072, 131072);
            lemma_mul_bound(sx as int, e1z as int, 131072, 131072);
            lemma_mul_bound(sx as int, e1y as int, 131072, 131072);
            lemma_mul_bound(sy as int, e1x as int, 131072, 131072);
        }
        let qx: i128 = (sy as i128) * (e1z as i128) - (sz as i128) * (e1y as i128);
        let qy: i128 = (sz as i128) * (e1x as i128) - (sx as i128) * (e1z as i128);
        let qz: i128 = (sx as i128) * (e1y as i128) - (sy as i128) * (e1x as i128);
        proof {
            lemma_mul_bound(dx as int, qx as int, 65536, 34359738368);
            lemma_mul_bound(dy as int, qy as int, 65536, 34359738368);
            lemma_mul_bound(dz as int, qz as int, 65536, 34359738368);
        }
        proof {
            lemma_mul_bound(
                (dx as int) * (qx as int) + (dy as int) * (qy as int) + (dz as int) * (qz as int),
                sg as int,
                6755399441055744,
                1,
            );
        }
        let vn: i128 = ((dx as i128) * qx + (dy as i128) * qy + (dz as i128) * qz) * sg;
        if vn < 0 || un + vn > aa {
            return ColliderResult::negative();
        }
        proof {
            lemma_mul_bound(e2x as int, qx as int, 131072, 34359738368);
            lemma_mul_bound(e2y as int, qy as int, 131072, 34359738368);
            lemma_mul_bound(e2z as int, qz as int, 131072, 34359738368);
        }
        proof {
            lemma_mul_bound(
                (e2x as int) * (qx as int) + (e2y as int) * (qy as int) + (e2z as int) * (qz
                    as int),
                sg as int,
                13510798882111488,
                1,
            );
        }
        let tn: i128 = ((e2x as i128) * qx + (e2y as i128) * qy + (e2z as i128) * qz) * sg;
        if tn > 0 {
            let t = Rat { num: tn, den: aa };
            proof {
                assert(aa == a || aa == -a) by (nonlinear_arith)
                    requires
                        aa == a * sg,
                        sg == 1 || sg == -1,
                ;
                assert(t.wf());
            }
            let position = ray.parameterize(&t);
            ColliderResult { collision: true, t, position, normal: self.normal, material: None }
        } else {
            ColliderResult::negative()
        }
    }

    fn bounding_box(&self) -> (r: AABB) {
        AABB {
            min: Vec3 {
                x: min_i64(self.v0.x, min_i64(self.v1.x, self.v2.x)),
                y: min_i64(self.v0.y, min_i64(self.v1.y, self.v2.y)),
                z: min_i64(self.v0.z, min_i64(self.v1.z, self.v2.z)),
            },
            max: Vec3 {
                x: max_i64(self.v0.x, max_i64(self.v1.x, self.v2.x)),
                y: max_i64(self.v0.y, max_i64(self.v1.y, self.v2.y)),
                z: max_i64(self.v0.z, max_i64(self.v1.z, self.v2.z)),
            },
        }
    }

    fn position(&self) -> (r: Vec3) {
        let sx: i64 = self.v0.x + self.v1.x + self.v2.x;
        let sy: i64 = self.v0.y + self.v1.y + self.v2.y;
        let sz: i64 = self.v0.z + self.v1.z + self.v2.z;
        Vec3 { x: div3(sx), y: div3(sy), z: div3(sz) }
    }

    fn material(&self) -> (r: Option<&Material>) {
        None
    }

    fn translate(&mut self, v: Vec3) {
        self.v0 = self.v0.add(&v);
        self.v1 = self.v1.add(&v);
        self.v2 = self.v2.add(&v);
    }
}

fn div3(a: i64) -> (r: i64)
    requires
        -196608 <= a <= 196608,
    ensures
        r as int == a as int / 3,
        -65536 <= r <= 65536,
{
    proof {
        assert(a as int / 3 * 3 + a as int % 3 == a as int);
    }
    if a >= 0 {
        ((a as u64) / 3) as i64
    } else {
        let q: u64 = ((-a) as u64) / 3;
        let rem: u64 = ((-a) as u64) % 3;
        if rem == 0 {
            -(q as i64)
        } else {
            -(q as i64) - 1
        }
    }
}

} // verus!
