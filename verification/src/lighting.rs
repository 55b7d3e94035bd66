//! Light sources: plain data the shading components sample, plus the
//! shadow-visibility query that walks the world's entities.

use vstd::prelude::*;
use crate::vecmath::{Vec3, grid_dir, grid_dir_spec, lemma_mul_bound};
use crate::common::{Color, Ray, Entity, World, FIX_ONE};

verus! {

/// Light arriving at a point: a fixed-point power and an (unnormalized)
/// direction of travel.
#[derive(Clone, Copy, PartialEq, Eq, Structural, Debug)]
pub struct LightRay {
    pub power: u32,
    pub direction: Vec3,
}

/// A source of illumination. Shading formulas (outside the core) sample it
/// at grid points; the exact contracts pin every answer.
pub trait LightSource: Sized {
    spec fn wf(&self) -> bool;

    spec fn illuminate_spec(&self, pos: Vec3) -> LightRay;

    spec fn visible_spec(&self, pos: Vec3, normal: Vec3, world: World) -> bool;

    spec fn color_spec(&self) -> Color;

    fn illuminate(&self, pos: &Vec3, normal: &Vec3) -> (r: LightRay)
        requires
            self.wf(),
            pos.wf(),
        ensures
            r == self.illuminate_spec(*pos),
            r.direction.wf(),
    ;

    fn visible(&self, pos: &Vec3, normal: &Vec3, world: &World) -> (r: bool)
        requires
            self.wf(),
            pos.wf(),
            normal.wf(),
            world.wf(),
        ensures
            r == self.visible_spec(*pos, *normal, *world),
    ;

    fn color(&self) -> (r: Color)
        requires
            self.wf(),
        ensures
            r == self.color_spec(),
    ;
}

/// A light infinitely far away: constant power along one direction.
#[derive(Clone, Copy, PartialEq, Eq, Structural, Debug)]
pub struct DirectionalLight {
    pub direction: Vec3,
    pub color: Color,
    pub intensity: u32,
}

impl DirectionalLight {
    pub open spec fn wf_spec(self) -> bool {
        &&& self.direction.wf()
        &&& !self.direction.is_zero()
    }

    pub fn new(direction: Vec3, color: Color, intensity: u32) -> (r: DirectionalLight)
        requires
            direction.wf(),
            !direction.is_zero(),
        ensures
            r == (DirectionalLight { direction, color, intensity }),
            r.wf(),
    {
        DirectionalLight { direction, color, intensity }
    }
}

impl LightSource for DirectionalLight {
    open spec fn wf(&self) -> bool {
        self.wf_spec()
    }

    open spec fn illuminate_spec(&self, pos: Vec3) -> LightRay {
        LightRay { power: self.intensity, direction: self.direction }
    }

    /// Lit iff the surface faces the light: the normal and the light's
    /// travel direction point against each other.
    open spec fn visible_spec(&self, pos: Vec3, normal: Vec3, world: World) -> bool {
        normal.x * self.direction.x + normal.y * self.direction.y + normal.z * self.direction.z
            < 0
    }

    open spec fn color_spec(&self) -> Color {
        self.color
    }

    fn illuminate(&self, pos: &Vec3, normal: &Vec3) -> (r: LightRay) {
        LightRay { power: self.intensity, direction: self.direction }
    }

    fn visible(&self, pos: &Vec3, normal: &Vec3, world: &World) -> (r: bool) {
        normal.dot(&self.direction) < 0
    }

    fn color(&self) -> (r: Color) {
        self.color
    }
}

/// Power arriving from a point light: the brightness divided by the
/// attenuated squared distance (fixed point, saturating at the brightness
/// itself for very close points).
pub open spec fn point_power_spec(brightness: int, attenuation: int, d2: int) -> int {
    brightness * (FIX_ONE as int) / (attenuation * d2 / (FIX_ONE as int) + (FIX_ONE as int))
}

/// A light at a point in the scene, falling off with squared distance.
#[derive(Clone, Copy, PartialEq, Eq, Structural, Debug)]
pub struct PointLight {
    pub position: Vec3,
    pub color: Color,
    pub brightness: u32,
    pub attenuation: u32,
}

impl PointLight {
    pub open spec fn wf_spec(self) -> bool {
        &&& self.position.wf()
        &&& self.attenuation <= FIX_ONE
    }

    pub fn new(position: Vec3, color: Color, brightness: u32, attenuation: u32) -> (r: PointLight)
        requires
            position.wf(),
            attenuation <= FIX_ONE,
        ensures
            r == (PointLight { position, color, brightness, attenuation }),
            r.wf(),
    {
        PointLight { position, color, brightness, attenuation }
    }
}

impl PointLight {
    /// The shadow probe the source queries the world with: toward the
    /// light, from the given point.
    pub open spec fn shadow_ray_spec(&self, pos: Vec3) -> Ray {
        Ray {
            origin: pos,
            direction: grid_dir_spec(
                self.position.x - pos.x,
                self.position.y - pos.y,
                self.position.z - pos.z,
            ),
            bounce: 0,
        }
    }
}

impl LightSource for PointLight {
    open spec fn wf(&self) -> bool {
        self.wf_spec()
    }

    open spec fn illuminate_spec(&self, pos: Vec3) -> LightRay {
        let dx = pos.x - self.position.x;
        let dy = pos.y - self.position.y;
        let dz = pos.z - self.position.z;
        let d2 = dx * dx + dy * dy + dz * dz;
        LightRay {
            power: point_power_spec(self.brightness as int, self.attenuation as int, d2) as u32,
            direction: grid_dir_spec(dx, dy, dz),
        }
    }

    /// Visible when some entity reports no hit along the probe (or when the
    /// point coincides with the light).
    open spec fn visible_spec(&self, pos: Vec3, normal: Vec3, world: World) -> bool {
        if self.shadow_ray_spec(pos).direction.is_zero() {
            true
        } else {
            exists|i: int|
                0 <= i < world.entities@.len() && !(#[trigger] world.entities@[i].collide_spec(
                    self.shadow_ray_spec(pos),
                )).collision
        }
    }

    open spec fn color_spec(&self) -> Color {
        self.color
    }

    fn illuminate(&self, pos: &Vec3, normal: &Vec3) -> (r: LightRay) {
        let dx: i64 = pos.x - self.position.x;
        let dy: i64 = pos.y - self.position.y;
        let dz: i64 = pos.z - self.position.z;
        proof {
            lemma_mul_bound(dx as int, dx as int, 131072, 131072);
            lemma_mul_bound(dy as int, dy as int, 131072, 131072);
            lemma_mul_bound(dz as int, dz as int, 131072, 131072);
            assert((dx as int) * (dx as int) >= 0 && (dy as int) * (dy as int) >= 0 && (dz
                as int) * (dz as int) >= 0) by (nonlinear_arith);
        }
        let d2: i128 = (dx as i128) * (dx as i128) + (dy as i128) * (dy as i128) + (dz as i128) * (
        dz as i128);
        proof {
            lemma_mul_bound(self.attenuation as int, d2 as int, FIX_ONE as int, 51539607552);
            assert((self.attenuation as int) * (d2 as int) >= 0) by (nonlinear_arith)
                requires
                    self.attenuation as int >= 0,
                    d2 as int >= 0,
            ;
            lemma_mul_bound(
                self.brightness as int,
                FIX_ONE as int,
                u32::MAX as int,
                FIX_ONE as int,
            );
        }
        let denom: u128 = (self.attenuation as u128) * (d2 as u128) / (FIX_ONE as u128) + (FIX_ONE
            as u128);
        proof {
            assert((self.brightness as int) * (FIX_ONE as int) / (denom as int) <= self.brightness
                as int) by (nonlinear_arith)
                requires
                    0 <= self.brightness as int,
                    denom as int >= FIX_ONE as int,
                    FIX_ONE as int == 65536,
            ;
        }
        let power: u32 = ((self.brightness as u128) * (FIX_ONE as u128) / denom) as u32;
        LightRay { power, direction: grid_dir(dx as i128, dy as i128, dz as i128) }
    }

    fn visible(&self, pos: &Vec3, normal: &Vec3, world: &World) -> (r: bool) {
        let dir = grid_dir(
            (self.position.x - pos.x) as i128,
            (self.position.y - pos.y) as i128,
            (self.position.z - pos.z) as i128,
        );
        if dir.eq_zero() {
            return true;
        }
        let ray = Ray { origin: *pos, direction: dir, bounce: 0 };
        let mut i: usize = 0;
        while i < world.entities.len()
            invariant
                i <= world.entities@.len(),
                world.wf(),
                ray.wf(),
                ray == self.shadow_ray_spec(*pos),
                forall|k: int|
                    0 <= k < i ==> (#[trigger] world.entities@[k].collide_spec(ray)).collision,
            decreases world.entities@.len() - i,
        {
            let result = world.entities[i].collide(&ray);
            if !result.collision {
                return true;
            }
            i = i + 1;
        }
        false
    }

    fn color(&self) -> (r: Color) {
        self.color
    }
}

/// The closed set of light sources a world can hold.
pub enum Light {
    Directional(DirectionalLight),
    Point(PointLight),
}

/// Well-formedness of a stored light, free of the capability trait so a
/// world can state it of its list.
pub open spec fn light_wf(l: Light) -> bool {
    match l {
        Light::Directional(d) => d.wf_spec(),
        Light::Point(p) => p.wf_spec(),
    }
}

impl LightSource for Light {
    open spec fn wf(&self) -> bool {
        light_wf(*self)
    }

    open spec fn illuminate_spec(&self, pos: Vec3) -> LightRay {
        match self {
            Light::Directional(l) => l.illuminate_spec(pos),
            Light::Point(l) => l.illuminate_spec(pos),
        }
    }

    open spec fn visible_spec(&self, pos: Vec3, normal: Vec3, world: World) -> bool {
        match self {
            Light::Directional(l) => l.visible_spec(pos, normal, world),
            Light::Point(l) => l.visible_spec(pos, normal, world),
        }
    }

    open spec fn color_spec(&self) -> Color {
        match self {
            Light::Directional(l) => l.color_spec(),
            Light::Point(l) => l.color_spec(),
        }
    }

    fn illuminate(&self, pos: &Vec3, normal: &Vec3) -> (r: LightRay) {
        match self {
            Light::Directional(l) => l.illuminate(pos, normal),
            Light::Point(l) => l.illuminate(pos, normal),
        }
    }

    fn visible(&self, pos: &Vec3, normal: &Vec3, world: &World) -> (r: bool) {
        match self {
            Light::Directional(l) => l.visible(pos, normal, world),
            Light::Point(l) => l.visible(pos, normal, world),
        }
    }

    fn color(&self) -> (r: Color) {
        match self {
            Light::Directional(l) => l.color(),
            Light::Point(l) => l.color(),
        }
    }
}

} // verus!
