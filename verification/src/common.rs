//! Shared core types: colors, rays, collision results.

use vstd::prelude::*;
use crate::vecmath::{Vec3, Rat, QVec, COORD_BOUND, T_BOUND, lemma_mul_bound};
use crate::material::Material;
use crate::geometry::aabb::AABB;

verus! {

/// Fixed-point unit for colors and mix factors: this value stands for 1.0.
pub const FIX_ONE: u32 = 65536;

/// A linear RGB color in fixed point: `FIX_ONE` is full intensity. Channels
/// may exceed `FIX_ONE` (bright contributions add up); output conversion
/// clamps.
#[derive(Clone, Copy, PartialEq, Eq, Structural, Debug)]
pub struct Color {
    pub r: u32,
    pub g: u32,
    pub b: u32,
}

/// `min(a + b, u32::MAX)`.
pub open spec fn sat_add_spec(a: int, b: int) -> int {
    if a + b > 0xffff_ffff {
        0xffff_ffff
    } else {
        a + b
    }
}

fn sat_add(a: u32, b: u32) -> (r: u32)
    ensures
        r == sat_add_spec(a as int, b as int),
{
    if a > u32::MAX - b {
        u32::MAX
    } else {
        a + b
    }
}

/// `c` scaled by the fixed-point factor `m` (rounding down).
pub open spec fn scale_spec(c: int, m: int) -> int {
    (c * m) / (FIX_ONE as int)
}

fn scale_channel(c: u32, m: u32) -> (r: u32)
    requires
        m <= FIX_ONE,
    ensures
        r == scale_spec(c as int, m as int),
        r <= c,
{
    proof {
        lemma_mul_bound(c as int, m as int, u32::MAX as int, FIX_ONE as int);
        assert((c as int * m as int) / (FIX_ONE as int) <= c as int) by (nonlinear_arith)
            requires
                0 <= c as int,
                0 <= m as int <= FIX_ONE as int,
        ;
    }
    (((c as u64) * (m as u64)) / (FIX_ONE as u64)) as u32
}

impl Color {
    pub open spec fn black_spec() -> Color {
        Color { r: 0, g: 0, b: 0 }
    }

    pub fn black() -> (r: Color)
        ensures
            r == Color::black_spec(),
    {
        Color { r: 0, g: 0, b: 0 }
    }

    /// Componentwise saturating sum of two colors.
    pub open spec fn add_spec(self, o: Color) -> Color {
        Color {
            r: sat_add_spec(self.r as int, o.r as int) as u32,
            g: sat_add_spec(self.g as int, o.g as int) as u32,
            b: sat_add_spec(self.b as int, o.b as int) as u32,
        }
    }

    pub fn add(&self, o: &Color) -> (r: Color)
        ensures
            r == self.add_spec(*o),
    {
        Color { r: sat_add(self.r, o.r), g: sat_add(self.g, o.g), b: sat_add(self.b, o.b) }
    }

    /// The color scaled by a fixed-point weight in `[0, 1]`.
    pub open spec fn scale_spec(self, m: int) -> Color {
        Color {
            r: scale_spec(self.r as int, m) as u32,
            g: scale_spec(self.g as int, m) as u32,
            b: scale_spec(self.b as int, m) as u32,
        }
    }

    pub fn scale(&self, m: u32) -> (r: Color)
        requires
            m <= FIX_ONE,
        ensures
            r == self.scale_spec(m as int),
    {
        Color { r: scale_channel(self.r, m), g: scale_channel(self.g, m), b: scale_channel(
            self.b,
            m,
        ) }
    }
}

/// One output channel: clamp to full intensity, then scale to 8 bits.
pub open spec fn channel_to_byte_spec(c: int) -> int {
    (if c > FIX_ONE as int {
        FIX_ONE as int
    } else {
        c
    }) * 255 / (FIX_ONE as int)
}

fn channel_to_byte(c: u32) -> (r: u8)
    ensures
        r == channel_to_byte_spec(c as int),
{
    let clamped: u32 = if c > FIX_ONE {
        FIX_ONE
    } else {
        c
    };
    (((clamped as u64) * 255) / (FIX_ONE as u64)) as u8
}

/// A linear color as an 8-bit-per-channel pixel, clamping scale-by-255.
pub fn vec_rgb(v: &Color) -> (r: [u8; 3])
    ensures
        r[0] == channel_to_byte_spec(v.r as int),
        r[1] == channel_to_byte_spec(v.g as int),
        r[2] == channel_to_byte_spec(v.b as int),
{
    let a: [u8; 3] = [channel_to_byte(v.r), channel_to_byte(v.g), channel_to_byte(v.b)];
    a
}

/// One fixed-point channel from an 8-bit one.
pub open spec fn byte_to_channel_spec(c: int) -> int {
    c * (FIX_ONE as int) / 255
}

/// A color from 8-bit channels.
pub fn color_vec(r: u8, g: u8, b: u8) -> (c: Color)
    ensures
        c.r == byte_to_channel_spec(r as int),
        c.g == byte_to_channel_spec(g as int),
        c.b == byte_to_channel_spec(b as int),
{
    proof {
        lemma_mul_bound(r as int, FIX_ONE as int, 255, FIX_ONE as int);
        lemma_mul_bound(g as int, FIX_ONE as int, 255, FIX_ONE as int);
        lemma_mul_bound(b as int, FIX_ONE as int, 255, FIX_ONE as int);
    }
    Color {
        r: (((r as u64) * (FIX_ONE as u64)) / 255) as u32,
        g: (((g as u64) * (FIX_ONE as u64)) / 255) as u32,
        b: (((b as u64) * (FIX_ONE as u64)) / 255) as u32,
    }
}

/// An 8-bit pixel turned back into a linear color.
pub fn rgb_vec(i: &[u8; 3]) -> (c: Color)
    ensures
        c.r == byte_to_channel_spec(i[0] as int),
        c.g == byte_to_channel_spec(i[1] as int),
        c.b == byte_to_channel_spec(i[2] as int),
{
    color_vec(i[0], i[1], i[2])
}

/// One channel moved from `a` toward `b` by the fixed-point `amount`.
pub open spec fn lerp_channel_spec(a: int, b: int, amount: int) -> int {
    if b >= a {
        a + (b - a) * amount / (FIX_ONE as int)
    } else {
        a - (a - b) * amount / (FIX_ONE as int)
    }
}

fn lerp_channel(a: u32, b: u32, amount: u32) -> (r: u32)
    requires
        amount <= FIX_ONE,
    ensures
        r == lerp_channel_spec(a as int, b as int, amount as int),
{
    if b >= a {
        proof {
            lemma_mul_bound(b as int - a as int, amount as int, u32::MAX as int, FIX_ONE as int);
        }
        let step: u64 = ((b - a) as u64) * (amount as u64) / (FIX_ONE as u64);
        proof {
            assert((b as int - a as int) * (amount as int) / (FIX_ONE as int) <= b as int - a
                as int) by (nonlinear_arith)
                requires
                    0 <= b as int - a as int,
                    0 <= amount as int <= FIX_ONE as int,
            ;
        }
        a + (step as u32)
    } else {
        proof {
            lemma_mul_bound(a as int - b as int, amount as int, u32::MAX as int, FIX_ONE as int);
        }
        let step: u64 = ((a - b) as u64) * (amount as u64) / (FIX_ONE as u64);
        proof {
            assert((a as int - b as int) * (amount as int) / (FIX_ONE as int) <= a as int - b
                as int && 0 <= (a as int - b as int) * (amount as int) / (FIX_ONE as int))
                by (nonlinear_arith)
                requires
                    0 <= a as int - b as int,
                    0 <= amount as int <= FIX_ONE as int,
            ;
        }
        a - (step as u32)
    }
}

/// Componentwise linear interpolation between two colors.
pub fn lerp(v1: &Color, v2: &Color, amount: u32) -> (r: Color)
    requires
        amount <= FIX_ONE,
    ensures
        r.r == lerp_channel_spec(v1.r as int, v2.r as int, amount as int),
        r.g == lerp_channel_spec(v1.g as int, v2.g as int, amount as int),
        r.b == lerp_channel_spec(v1.b as int, v2.b as int, amount as int),
{
    Color {
        r: lerp_channel(v1.r, v2.r, amount),
        g: lerp_channel(v1.g, v2.g, amount),
        b: lerp_channel(v1.b, v2.b, amount),
    }
}

/// Shorthand grid-vector constructor.
pub fn vector3(x: i64, y: i64, z: i64) -> (r: Vec3)
    ensures
        r == (Vec3 { x, y, z }),
{
    Vec3 { x, y, z }
}

/// A ray on the grid: integer origin and (unnormalized, nonzero) integer
/// direction. `bounce` counts reflection hops and bounds recursion.
#[derive(Clone, Copy, PartialEq, Eq, Structural, Debug)]
pub struct Ray {
    pub origin: Vec3,
    pub direction: Vec3,
    pub bounce: u32,
}

impl Ray {
    pub open spec fn wf(self) -> bool {
        &&& self.origin.wf()
        &&& self.direction.wf()
        &&& !self.direction.is_zero()
    }

    /// The point `origin + t * direction`, exactly.
    pub open spec fn parameterize_spec(self, t: Rat) -> QVec {
        QVec {
            nx: (self.origin.x * t.den + self.direction.x * t.num) as i128,
            ny: (self.origin.y * t.den + self.direction.y * t.num) as i128,
            nz: (self.origin.z * t.den + self.direction.z * t.num) as i128,
            den: t.den,
        }
    }

    pub fn parameterize(&self, t: &Rat) -> (r: QVec)
        requires
            self.wf(),
            t.wf(),
        ensures
            r == self.parameterize_spec(*t),
            r.wf(),
    {
        proof {
            lemma_mul_bound(self.origin.x as int, t.den as int, COORD_BOUND as int, T_BOUND as int);
            lemma_mul_bound(self.origin.y as int, t.den as int, COORD_BOUND as int, T_BOUND as int);
            lemma_mul_bound(self.origin.z as int, t.den as int, COORD_BOUND as int, T_BOUND as int);
            lemma_mul_bound(
                self.direction.x as int,
                t.num as int,
                COORD_BOUND as int,
                T_BOUND as int,
            );
            lemma_mul_bound(
                self.direction.y as int,
                t.num as int,
                COORD_BOUND as int,
                T_BOUND as int,
            );
            lemma_mul_bound(
                self.direction.z as int,
                t.num as int,
                COORD_BOUND as int,
                T_BOUND as int,
            );
        }
        QVec {
            nx: (self.origin.x as i128) * t.den + (self.direction.x as i128) * t.num,
            ny: (self.origin.y as i128) * t.den + (self.direction.y as i128) * t.num,
            nz: (self.origin.z as i128) * t.den + (self.direction.z as i128) * t.num,
            den: t.den,
        }
    }
}

/// Outcome of an intersection query. When `collision` is false the other
/// fields are zeroed by convention and carry no meaning. The normal is an
/// unnormalized direction vector (normalization has no exact meaning on the
/// grid); it may be zero where a primitive defers to its material.
pub struct ColliderResult {
    pub collision: bool,
    /// Ray parameter of the hit, exact; the hit point is
    /// `origin + t * direction`.
    pub t: Rat,
    pub position: QVec,
    pub normal: Vec3,
    pub material: Option<Material>,
}

impl ColliderResult {
    pub open spec fn wf(self) -> bool {
        &&& self.t.wf()
        &&& self.position.wf()
        &&& self.normal.wf()
        &&& match self.material {
            Some(m) => m.wf(),
            None => true,
        }
    }

    pub open spec fn negative_spec() -> ColliderResult {
        ColliderResult {
            collision: false,
            t: Rat { num: 0, den: 1 },
            position: QVec { nx: 0, ny: 0, nz: 0, den: 1 },
            normal: Vec3 { x: 0, y: 0, z: 0 },
            material: None,
        }
    }

    /// The conventional no-collision result.
    pub fn negative() -> (r: ColliderResult)
        ensures
            r == ColliderResult::negative_spec(),
            r.wf(),
            !r.collision,
    {
        ColliderResult {
            collision: false,
            t: Rat { num: 0, den: 1 },
            position: QVec { nx: 0, ny: 0, nz: 0, den: 1 },
            normal: Vec3 { x: 0, y: 0, z: 0 },
            material: None,
        }
    }

    /// The geometric content of the result, without the material snapshot.
    pub open spec fn geom(self) -> (bool, Rat, QVec, Vec3) {
        (self.collision, self.t, self.position, self.normal)
    }
}

/// Equality of material snapshots by content (color and component list).
pub open spec fn opt_material_eq(a: Option<Material>, b: Option<Material>) -> bool {
    match (a, b) {
        (Some(x), Some(y)) => x.color == y.color && x.shaders@ == y.shaders@,
        (None, None) => true,
        _ => false,
    }
}

/// An intersectable primitive: anything a world can hold or a k-d tree can
/// index. Each implementation fixes its geometry exactly through the spec
/// methods, so callers (and the tracer) are pinned to one deterministic
/// result per ray.
pub trait Entity: Sized {
    /// The implementation's internal invariant (coordinates on the grid,
    /// derived fields consistent).
    spec fn wf(&self) -> bool;

    /// Exact description of what `collide` returns.
    spec fn collide_spec(&self, ray: Ray) -> ColliderResult;

    /// Exact description of what `bounding_box` returns.
    spec fn bb_spec(&self) -> AABB;

    /// Exact description of what `position` returns.
    spec fn position_spec(&self) -> Vec3;

    /// How a rigid shift by `v` (clamped to the grid) relates the entity
    /// after `translate` to the one before.
    spec fn translated_rel(pre: Self, post: Self, v: Vec3) -> bool;

    /// The material snapshot a hit on this entity carries.
    spec fn material_spec(&self) -> Option<Material>;

    fn collide(&self, ray: &Ray) -> (r: ColliderResult)
        requires
            self.wf(),
            ray.wf(),
        ensures
            r.geom() == self.collide_spec(*ray).geom(),
            opt_material_eq(r.material, self.collide_spec(*ray).material),
            r.wf(),
    ;

    fn bounding_box(&self) -> (r: AABB)
        requires
            self.wf(),
        ensures
            r == self.bb_spec(),
            r.wf(),
    ;

    fn position(&self) -> (r: Vec3)
        requires
            self.wf(),
        ensures
            r == self.position_spec(),
    ;

    fn material(&self) -> (r: Option<&Material>)
        requires
            self.wf(),
        ensures
            opt_material_eq(
                match r {
                    Some(m) => Some(*m),
                    None => None,
                },
                self.material_spec(),
            ),
    ;

    fn translate(&mut self, v: Vec3)
        requires
            old(self).wf(),
            v.wf(),
        ensures
            Self::translated_rel(*old(self), *final(self), v),
            final(self).wf(),
    ;
}

/// The closed set of entities a world can hold at top level.
pub enum WorldEntity {
    Sphere(crate::geometry::sphere::Sphere),
    Triangle(crate::geometry::triangle::Triangle),
    Block(AABB),
    Model(crate::geometry::model::Model),
}

impl Entity for WorldEntity {
    open spec fn wf(&self) -> bool {
        match self {
            WorldEntity::Sphere(e) => e.wf(),
            WorldEntity::Triangle(e) => e.wf(),
            WorldEntity::Block(e) => e.wf(),
            WorldEntity::Model(e) => e.wf(),
        }
    }

    open spec fn collide_spec(&self, ray: Ray) -> ColliderResult {
        match self {
            WorldEntity::Sphere(e) => e.collide_spec(ray),
            WorldEntity::Triangle(e) => e.collide_spec(ray),
            WorldEntity::Block(e) => e.collide_spec(ray),
            WorldEntity::Model(e) => e.collide_spec(ray),
        }
    }

    open spec fn bb_spec(&self) -> AABB {
        match self {
            WorldEntity::Sphere(e) => e.bb_spec(),
            WorldEntity::Triangle(e) => e.bb_spec(),
            WorldEntity::Block(e) => e.bb_spec(),
            WorldEntity::Model(e) => e.bb_spec(),
        }
    }

    open spec fn position_spec(&self) -> Vec3 {
        match self {
            WorldEntity::Sphere(e) => e.position_spec(),
            WorldEntity::Triangle(e) => e.position_spec(),
            WorldEntity::Block(e) => e.position_spec(),
            WorldEntity::Model(e) => e.position_spec(),
        }
    }

    open spec fn translated_rel(pre: WorldEntity, post: WorldEntity, v: Vec3) -> bool {
        match (pre, post) {
            (WorldEntity::Sphere(a), WorldEntity::Sphere(b)) => crate::geometry::sphere::Sphere::translated_rel(
                a,
                b,
                v,
            ),
            (
                WorldEntity::Triangle(a),
                WorldEntity::Triangle(b),
            ) => crate::geometry::triangle::Triangle::translated_rel(a, b, v),
            (WorldEntity::Block(a), WorldEntity::Block(b)) => AABB::translated_rel(a, b, v),
            (WorldEntity::Model(a), WorldEntity::Model(b)) => crate::geometry::model::Model::translated_rel(
                a,
                b,
                v,
            ),
            _ => false,
        }
    }

    open spec fn material_spec(&self) -> Option<Material> {
        match self {
            WorldEntity::Sphere(e) => e.material_spec(),
            WorldEntity::Triangle(e) => e.material_spec(),
            WorldEntity::Block(e) => e.material_spec(),
            WorldEntity::Model(e) => e.material_spec(),
        }
    }

    fn collide(&self, ray: &Ray) -> (r: ColliderResult) {
        match self {
            WorldEntity::Sphere(e) => e.collide(ray),
            WorldEntity::Triangle(e) => e.collide(ray),
            WorldEntity::Block(e) => e.collide(ray),
            WorldEntity::Model(e) => e.collide(ray),
        }
    }

    fn bounding_box(&self) -> (r: AABB) {
        match self {
            WorldEntity::Sphere(e) => e.bounding_box(),
            WorldEntity::Triangle(e) => e.bounding_box(),
            WorldEntity::Block(e) => e.bounding_box(),
            WorldEntity::Model(e) => e.bounding_box(),
        }
    }

    fn position(&self) -> (r: Vec3) {
        match self {
            WorldEntity::Sphere(e) => e.position(),
            WorldEntity::Triangle(e) => e.position(),
            WorldEntity::Block(e) => e.position(),
            WorldEntity::Model(e) => e.position(),
        }
    }

    fn material(&self) -> (r: Option<&Material>) {
        match self {
            WorldEntity::Sphere(e) => e.material(),
            WorldEntity::Triangle(e) => e.material(),
            WorldEntity::Block(e) => e.material(),
            WorldEntity::Model(e) => e.material(),
        }
    }

    fn translate(&mut self, v: Vec3) {
        match self {
            WorldEntity::Sphere(e) => e.translate(v),
            WorldEntity::Triangle(e) => e.translate(v),
            WorldEntity::Block(e) => e.translate(v),
            WorldEntity::Model(e) => e.translate(v),
        }
    }
}

/// The scene under render: top-level entities, light sources, a sky
/// material and an ambient weight. Built once, read-only while rendering.
pub struct World {
    pub entities: Vec<WorldEntity>,
    pub light_sources: Vec<crate::lighting::Light>,
    pub sky: Material,
    pub ambient: u32,
}

impl World {
    pub open spec fn wf(self) -> bool {
        &&& forall|i: int| 0 <= i < self.entities@.len() ==> (#[trigger] self.entities@[i]).wf()
        &&& forall|i: int|
            0 <= i < self.light_sources@.len() ==> crate::lighting::light_wf(
                #[trigger] self.light_sources@[i],
            )
        &&& self.sky.wf()
        &&& self.ambient <= FIX_ONE
    }
}

/// A shading component implementation: the external collaborator the tracer
/// hands material components to. The contract demands a deterministic
/// answer, so a cast is a pure function of its inputs. The collision handed
/// over carries no material snapshot (behaviors read geometry only).
pub trait RayBehavior: Sized {
    spec fn compute_spec(
        &self,
        part: crate::material::MaterialPart,
        ray: Ray,
        world: World,
        collision: ColliderResult,
    ) -> Option<Color>;

    fn compute(
        &self,
        part: &crate::material::MaterialPart,
        ray: &Ray,
        world: &World,
        collision: &ColliderResult,
    ) -> (r: Option<Color>)
        requires
            ray.wf(),
            world.wf(),
            collision.wf(),
        ensures
            r == self.compute_spec(*part, *ray, *world, *collision),
    ;
}

/// The trivial behavior: every component declines. Renders base colors and
/// reflections only.
#[derive(Clone, Copy, PartialEq, Eq, Structural, Debug)]
pub struct NoShade;

impl RayBehavior for NoShade {
    open spec fn compute_spec(
        &self,
        part: crate::material::MaterialPart,
        ray: Ray,
        world: World,
        collision: ColliderResult,
    ) -> Option<Color> {
        None
    }

    fn compute(
        &self,
        part: &crate::material::MaterialPart,
        ray: &Ray,
        world: &World,
        collision: &ColliderResult,
    ) -> (r: Option<Color>) {
        None
    }
}

} // verus!
