//! Spheres, with an exact fixed-point quadratic intersection: the hit
//! parameter is pinned to the closed-form formula with a floor square root.

use vstd::prelude::*;
use crate::vecmath::{
    Vec3,
    Rat,
    QVec,
    COORD_BOUND,
    clamp_coord,
    trunc_div_spec,
    trunc_div_i128,
    sqrt_spec,
    isqrt,
    lemma_mul_bound,
    clamp_coord_i128,
};
use crate::common::{Ray, ColliderResult, Entity, opt_material_eq};
use crate::geometry::aabb::AABB;
use crate::material::Material;

verus! {

pub struct Sphere {
    pub position: Vec3,
    pub radius: i64,
    pub radius2: i128,
    pub material: Material,
}

/// Clamp a translated center so the whole sphere stays on the grid.
pub open spec fn clamp_center_coord(v: int, radius: int) -> int {
    if v > COORD_BOUND - radius {
        COORD_BOUND - radius
    } else if v < -COORD_BOUND + radius {
        -COORD_BOUND + radius
    } else {
        v
    }
}

fn clamp_center(v: i64, w: i64, radius: i64) -> (r: i64)
    requires
        -COORD_BOUND <= v <= COORD_BOUND,
        -COORD_BOUND <= w <= COORD_BOUND,
        0 < radius <= COORD_BOUND,
    ensures
        r as int == clamp_center_coord(v + w, radius as int),
{
    let s: i64 = v + w;
    if s > COORD_BOUND - radius {
        COORD_BOUND - radius
    } else if s < -COORD_BOUND + radius {
        -COORD_BOUND + radius
    } else {
        s
    }
}

impl Sphere {
    /// Center and radius on the grid, with the whole ball in bounds, and the
    /// squared radius cached consistently.
    pub open spec fn wf_spec(self) -> bool {
        &&& self.position.wf()
        &&& 0 < self.radius <= COORD_BOUND
        &&& -COORD_BOUND <= self.position.x - self.radius && self.position.x + self.radius
            <= COORD_BOUND
        &&& -COORD_BOUND <= self.position.y - self.radius && self.position.y + self.radius
            <= COORD_BOUND
        &&& -COORD_BOUND <= self.position.z - self.radius && self.position.z + self.radius
            <= COORD_BOUND
        &&& self.radius2 == self.radius * self.radius
        &&& self.material.wf()
    }

    pub open spec fn center_spec(self) -> Vec3 {
        self.position
    }

    pub open spec fn radius_spec(self) -> int {
        self.radius as int
    }

    pub fn new(position: Vec3, radius: i64, material: Material) -> (r: Sphere)
        requires
            position.wf(),
            0 < radius <= COORD_BOUND,
            -COORD_BOUND <= position.x - radius && position.x + radius <= COORD_BOUND,
            -COORD_BOUND <= position.y - radius && position.y + radius <= COORD_BOUND,
            -COORD_BOUND <= position.z - radius && position.z + radius <= COORD_BOUND,
            material.wf(),
        ensures
            r.wf_spec(),
            r.center_spec() == position,
            r.radius_spec() == radius as int,
            opt_material_eq(r.material_spec(), Some(material)),
    {
        proof {
            lemma_mul_bound(radius as int, radius as int, COORD_BOUND as int, COORD_BOUND as int);
        }
        Sphere { position, radius, radius2: (radius as i128) * (radius as i128), material }
    }

    /// The hit a ray makes on this sphere, exactly. With `l` the vector from
    /// origin to center: reject when the center lies behind the origin
    /// (`l·d < 0`) or the discriminant is negative; otherwise the parameter
    /// is `(l·d - floor_sqrt(disc)) / (d·d)` and the normal points from the
    /// center to the hit, truncated onto the grid.
    pub open spec fn collide_rule(self, r: Ray) -> ColliderResult {
        let lx = self.position.x - r.origin.x;
        let ly = self.position.y - r.origin.y;
        let lz = self.position.z - r.origin.z;
        let dx = r.direction.x as int;
        let dy = r.direction.y as int;
        let dz = r.direction.z as int;
        let ld = lx * dx + ly * dy + lz * dz;
        let dd = dx * dx + dy * dy + dz * dz;
        let l2 = lx * lx + ly * ly + lz * lz;
        let disc = ld * ld - dd * (l2 - self.radius2);
        if ld < 0 || disc < 0 {
            ColliderResult::negative_spec()
        } else {
            let t = Rat { num: (ld - sqrt_spec(disc)) as i128, den: dd as i128 };
            let p = r.parameterize_spec(t);
            ColliderResult {
                collision: true,
                t,
                position: p,
                normal: self.normal_at_spec(p),
                material: Some(self.material),
            }
        }
    }

    /// The outward normal at a hit point: `(p - center)`, truncated to grid
    /// integers (and clamped, as every grid value is).
    pub open spec fn normal_at_spec(self, p: QVec) -> Vec3 {
        Vec3 {
            x: clamp_coord(trunc_div_spec(p.nx - self.position.x * p.den, p.den as int)) as i64,
            y: clamp_coord(trunc_div_spec(p.ny - self.position.y * p.den, p.den as int)) as i64,
            z: clamp_coord(trunc_div_spec(p.nz - self.position.z * p.den, p.den as int)) as i64,
        }
    }

    fn normal_at(&self, p: &QVec) -> (n: Vec3)
        requires
            self.wf_spec(),
            p.wf(),
        ensures
            n == self.normal_at_spec(*p),
            n.wf(),
    {
        proof {
            lemma_mul_bound(
                self.position.x as int,
                p.den as int,
                COORD_BOUND as int,
                crate::vecmath::T_BOUND as int,
            );
            lemma_mul_bound(
                self.position.y as int,
                p.den as int,
                COORD_BOUND as int,
                crate::vecmath::T_BOUND as int,
            );
            lemma_mul_bound(
                self.position.z as int,
                p.den as int,
                COORD_BOUND as int,
                crate::vecmath::T_BOUND as int,
            );
        }
        let nx: i128 = trunc_div_i128(p.nx - (self.position.x as i128) * p.den, p.den);
        let ny: i128 = trunc_div_i128(p.ny - (self.position.y as i128) * p.den, p.den);
        let nz: i128 = trunc_div_i128(p.nz - (self.position.z as i128) * p.den, p.den);
        Vec3 { x: clamp_coord_i128(nx), y: clamp_coord_i128(ny), z: clamp_coord_i128(nz) }
    }
}

impl Entity for Sphere {
    open spec fn wf(&self) -> bool {
        self.wf_spec()
    }

    open spec fn collide_spec(&self, ray: Ray) -> ColliderResult {
        self.collide_rule(ray)
    }

    open spec fn bb_spec(&self) -> AABB {
        AABB {
            min: Vec3 {
                x: (self.position.x - self.radius) as i64,
                y: (self.position.y - self.radius) as i64,
                z: (self.position.z - self.radius) as i64,
            },
            max: Vec3 {
                x: (self.position.x + self.radius) as i64,
                y: (self.position.y + self.radius) as i64,
                z: (self.position.z + self.radius) as i64,
            },
        }
    }

    open spec fn position_spec(&self) -> Vec3 {
        self.position
    }

    open spec fn translated_rel(pre: Sphere, post: Sphere, v: Vec3) -> bool {
        &&& post.position == (Vec3 {
            x: clamp_center_coord(pre.position.x + v.x, pre.radius as int) as i64,
            y: clamp_center_coord(pre.position.y + v.y, pre.radius as int) as i64,
            z: clamp_center_coord(pre.position.z + v.z, pre.radius as int) as i64,
        })
        &&& post.radius == pre.radius
        &&& post.radius2 == pre.radius2
        &&& post.material == pre.material
    }

    open spec fn material_spec(&self) -> Option<Material> {
        Some(self.material)
    }

    fn collide(&self, ray: &Ray) -> (res: ColliderResult) {
        let lx: i64 = self.position.x - ray.origin.x;
        let ly: i64 = self.position.y - ray.origin.y;
        let lz: i64 = self.position.z - ray.origin.z;
        let dx: i64 = ray.direction.x;
        let dy: i64 = ray.direction.y;
        let dz: i64 = ray.direction.z;
        proof {
            lemma_mul_bound(lx as int, dx as int, 131072, 65536);
            lemma_mul_bound(ly as int, dy as int, 131072, 65536);
            lemma_mul_bound(lz as int, dz as int, 131072, 65536);
            lemma_mul_bound(dx as int, dx as int, 65536, 65536);
            lemma_mul_bound(dy as int, dy as int, 65536, 65536);
            lemma_mul_bound(dz as int, dz as int, 65536, 65536);
            lemma_mul_bound(lx as int, lx as int, 131072, 131072);
            lemma_mul_bound(ly as int, ly as int, 131072, 131072);
            lemma_mul_bound(lz as int, lz as int, 131072, 131072);
        }
        let ld: i128 = (lx as i128) * (dx as i128) + (ly as i128) * (dy as i128) + (lz as i128) * (
        dz as i128);
        let dd: i128 = (dx as i128) * (dx as i128) + (dy as i128) * (dy as i128) + (dz as i128) * (
        dz as i128);
        let l2: i128 = (lx as i128) * (lx as i128) + (ly as i128) * (ly as i128) + (lz as i128) * (
        lz as i128);
        proof {
            lemma_mul_bound(self.radius as int, self.radius as int, 65536, 65536);
            lemma_mul_bound(ld as int, ld as int, 34359738368, 34359738368);
            lemma_mul_bound(
                dd as int,
                l2 - self.radius2,
                17179869184,
                68719476736,
            );
        }
        let disc: i128 = ld * ld - dd * (l2 - self.radius2);
        if ld < 0 || disc < 0 {
            return ColliderResult::negative();
        }
        let s128: u128 = isqrt(disc as u128);
        proof {
            assert(s128 as int <= 68719476736) by (nonlinear_arith)
                requires
                    s128 as int >= 0,
                    (s128 as int) * (s128 as int) <= disc as int,
                    (disc as int) < 4722366482869645213696,
            ;
            assert(dd > 0) by (nonlinear_arith)
                requires
                    !(dx == 0 && dy == 0 && dz == 0),
                    dd as int == (dx as int) * (dx as int) + (dy as int) * (dy as int) + (dz
                        as int) * (dz as int),
            ;
        }
        let s: i128 = s128 as i128;
        let t = Rat { num: ld - s, den: dd };
        let position = ray.parameterize(&t);
        let normal = self.normal_at(&position);
        ColliderResult {
            collision: true,
            t,
            position,
            normal,
            material: Some(self.material.clone()),
        }
    }

    fn bounding_box(&self) -> (r: AABB) {
        AABB {
            min: Vec3 {
                x: self.position.x - self.radius,
                y: self.position.y - self.radius,
                z: self.position.z - self.radius,
            },
            max: Vec3 {
                x: self.position.x + self.radius,
                y: self.position.y + self.radius,
                z: self.position.z + self.radius,
            },
        }
    }

    fn position(&self) -> (r: Vec3) {
        Vec3 { x: self.position.x, y: self.position.y, z: self.position.z }
    }

    fn material(&self) -> (r: Option<&Material>) {
        Some(&self.material)
    }

    fn translate(&mut self, v: Vec3) {
        self.position = Vec3 {
            x: clamp_center(self.position.x, v.x, self.radius),
            y: clamp_center(self.position.y, v.y, self.radius),
            z: clamp_center(self.position.z, v.z, self.radius),
        };
    }
}

} // verus!
