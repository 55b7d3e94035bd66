//! The ray tracer: nearest-hit casting over the world's entities, shading
//! with bounded recursive reflection, exact camera ray generation, and the
//! tiled render partition that parallel workers rely on.

use vstd::prelude::*;
use crate::vecmath::{
    Vec3,
    COORD_BOUND,
    clamp_coord,
    clamp_coord_i128,
    trunc_div_spec,
    trunc_div_i128,
    grid_dir,
    grid_dir_spec,
    lemma_mul_bound,
};
use crate::common::{
    Color,
    Ray,
    ColliderResult,
    Entity,
    WorldEntity,
    World,
    RayBehavior,
    FIX_ONE,
    byte_to_channel_spec,
    channel_to_byte_spec,
    vec_rgb,
    color_vec,
    opt_material_eq,
};
use crate::material::{Material, MaterialPart, PartKind};
use crate::lighting::{Light, DirectionalLight};

verus! {

/// A reflection component declines once a ray's bounce count exceeds this.
pub const BOUNCE_CAP: u32 = 3;

/// Depth of the lens plane in front of the camera, in grid units.
pub const LENS_DEPTH: i64 = 75;

pub struct RenderSettings {
    pub image_size: (u32, u32),
}

pub struct Camera {
    pub size: (i64, i64),
    pub lens_factor: (i64, i64),
    pub position: Vec3,
}

pub struct RayTracer {
    pub settings: RenderSettings,
    pub camera: Camera,
}

impl Camera {
    pub open spec fn wf(self) -> bool {
        &&& 0 < self.size.0 && 0 < self.size.1
        &&& 0 < self.lens_factor.0 && 0 < self.lens_factor.1
        &&& self.size.0 * self.lens_factor.0 <= COORD_BOUND
        &&& self.size.1 * self.lens_factor.1 <= COORD_BOUND
        &&& self.position.wf()
    }
}

impl RayTracer {
    pub open spec fn wf(self) -> bool {
        &&& self.camera.wf()
        &&& 0 < self.settings.image_size.0 <= 16384
        &&& 0 < self.settings.image_size.1 <= 16384
    }
}

/// Recursion budget of a cast: strictly shrinks along a reflection chain
/// and is zero once the bounce count passes the cap.
pub open spec fn cast_fuel(bounce: int) -> nat {
    if bounce > BOUNCE_CAP {
        0
    } else {
        (BOUNCE_CAP + 1 - bounce) as nat
    }
}

/// The nearest collision among the first `k` top-level entities: minimal
/// distance along the ray, earliest entity on ties.
pub open spec fn nearest_spec(ents: Seq<WorldEntity>, ray: Ray, k: int) -> ColliderResult
    decreases k,
{
    if k <= 0 {
        ColliderResult::negative_spec()
    } else {
        let prev = nearest_spec(ents, ray, k - 1);
        let cur = ents[k - 1].collide_spec(ray);
        if cur.collision && (!prev.collision || cur.t.abs_lt_spec(prev.t)) {
            cur
        } else {
            prev
        }
    }
}

/// The collision as shading components see it: geometry only, no material
/// snapshot.
pub open spec fn strip_spec(c: ColliderResult) -> ColliderResult {
    ColliderResult { material: None, ..c }
}

pub open spec fn isign(a: int) -> int {
    if a > 0 {
        1
    } else if a < 0 {
        -1
    } else {
        0
    }
}

/// Mirror `d` about `n` (both unnormalized): `(n·n) d - 2 (d·n) n`, scaled
/// back onto the grid.
pub open spec fn reflect_dir_spec(d: Vec3, n: Vec3) -> Vec3 {
    let nn = n.x * n.x + n.y * n.y + n.z * n.z;
    let dn = d.x * n.x + d.y * n.y + d.z * n.z;
    grid_dir_spec(
        nn * d.x - 2 * dn * n.x,
        nn * d.y - 2 * dn * n.y,
        nn * d.z - 2 * dn * n.z,
    )
}

/// Where a reflected ray starts: the hit point truncated to the grid,
/// nudged one grid unit along the normal's signs (off the surface).
pub open spec fn reflect_origin_spec(hit: ColliderResult) -> Vec3 {
    Vec3 {
        x: clamp_coord(
            trunc_div_spec(hit.position.nx as int, hit.position.den as int) + isign(
                hit.normal.x as int,
            ),
        ) as i64,
        y: clamp_coord(
            trunc_div_spec(hit.position.ny as int, hit.position.den as int) + isign(
                hit.normal.y as int,
            ),
        ) as i64,
        z: clamp_coord(
            trunc_div_spec(hit.position.nz as int, hit.position.den as int) + isign(
                hit.normal.z as int,
            ),
        ) as i64,
    }
}

/// The bounced ray a reflective component spawns.
pub open spec fn reflect_ray_spec(ray: Ray, hit: ColliderResult) -> Ray {
    Ray {
        origin: reflect_origin_spec(hit),
        direction: reflect_dir_spec(ray.direction, hit.normal),
        bounce: (ray.bounce + 1) as u32,
    }
}

/// The color a miss resolves to when the sky declines.
pub open spec fn sky_fallback_spec() -> Color {
    Color {
        r: byte_to_channel_spec(178) as u32,
        g: byte_to_channel_spec(222) as u32,
        b: byte_to_channel_spec(236) as u32,
    }
}

/// What a cast returns, exactly: the nearest hit shaded component by
/// component (reflection recursing with a bounced ray), or the sky.
pub open spec fn spec_cast<S: RayBehavior>(shader: S, world: World, ray: Ray) -> Color
    decreases cast_fuel(ray.bounce as int), 1int, 0int,
{
    let hit = nearest_spec(world.entities@, ray, world.entities@.len() as int);
    if hit.collision {
        match hit.material {
            Some(m) => spec_shade_parts(
                shader,
                world,
                ray,
                hit,
                m.color.scale_spec(world.ambient as int),
                m.shaders@,
                m.shaders@.len() as int,
            ),
            None => spec_shade_parts(
                shader,
                world,
                ray,
                hit,
                Color::black_spec(),
                Seq::empty(),
                0,
            ),
        }
    } else {
        if world.sky.shaders@.len() > 0 && !(world.sky.shaders@[0].kind is Reflection) {
            match shader.compute_spec(
                world.sky.shaders@[0],
                ray,
                world,
                ColliderResult::negative_spec(),
            ) {
                Some(c) => c,
                None => sky_fallback_spec(),
            }
        } else {
            sky_fallback_spec()
        }
    }
}

/// The accumulated color after the first `k` components of the hit
/// material: each contributes its computed color weighted by its mix
/// factor, or nothing when it declines. A reflection component declines
/// past the bounce cap or when the mirrored direction degenerates.
pub open spec fn spec_shade_parts<S: RayBehavior>(
    shader: S,
    world: World,
    ray: Ray,
    hit: ColliderResult,
    acc0: Color,
    parts: Seq<MaterialPart>,
    k: int,
) -> Color
    decreases cast_fuel(ray.bounce as int), 0int, k,
{
    if k <= 0 {
        acc0
    } else {
        let prev = spec_shade_parts(shader, world, ray, hit, acc0, parts, k - 1);
        let part = parts[k - 1];
        match part.kind {
            PartKind::Reflection => if ray.bounce > BOUNCE_CAP {
                prev
            } else {
                let rr = reflect_ray_spec(ray, hit);
                if rr.direction.is_zero() {
                    prev
                } else {
                    prev.add_spec(spec_cast(shader, world, rr).scale_spec(part.mix as int))
                }
            },
            _ => match shader.compute_spec(part, ray, world, strip_spec(hit)) {
                Some(c) => prev.add_spec(c.scale_spec(part.mix as int)),
                None => prev,
            },
        }
    }
}

impl RayTracer {
    pub fn new_default_renderer(size: (u32, u32)) -> (r: RayTracer)
        requires
            0 < size.0 <= 16384,
            0 < size.1 <= 16384,
        ensures
            r.settings.image_size == size,
            r.camera.size == (160i64, 90i64),
            r.camera.lens_factor == (1i64, 1i64),
            r.camera.position == (Vec3 { x: 0, y: 0, z: 0 }),
            r.wf(),
    {
        RayTracer {
            settings: RenderSettings { image_size: size },
            camera: Camera {
                size: (160, 90),
                lens_factor: (1, 1),
                position: Vec3 { x: 0, y: 0, z: 0 },
            },
        }
    }

    /// An empty world under a default sun and sky.
    pub fn new_empty_world() -> (r: World)
        ensures
            r.entities@.len() == 0,
            r.light_sources@.len() == 1,
            r.ambient as int == scale_ambient_default(),
            r.wf(),
    {
        let entities: Vec<WorldEntity> = Vec::new();
        let sun = DirectionalLight::new(
            Vec3 { x: 1, y: -1, z: 1 },
            color_vec(230, 230, 230),
            2 * FIX_ONE,
        );
        let mut light_sources: Vec<Light> = Vec::new();
        light_sources.push(Light::Directional(sun));
        let sky = Material::new_sky_material();
        World { entities, light_sources, sky, ambient: FIX_ONE * 15 / 100 }
    }

    /// Resolve a ray against the world: nearest top-level hit, shaded; a
    /// miss falls through to the sky. A pure function of its arguments —
    /// its exact value is `spec_cast`.
    pub fn cast<S: RayBehavior>(&self, ray: &Ray, world: &World, shader: &S) -> (r: Color)
        requires
            ray.wf(),
            world.wf(),
        ensures
            r == spec_cast(*shader, *world, *ray),
        decreases cast_fuel(ray.bounce as int), 1int, 0int,
    {
        let ghost n = world.entities@.len() as int;
        let mut best = ColliderResult::negative();
        let mut k: usize = 0;
        while k < world.entities.len()
            invariant
                k <= world.entities@.len(),
                world.wf(),
                ray.wf(),
                best.geom() == nearest_spec(world.entities@, *ray, k as int).geom(),
                opt_material_eq(
                    best.material,
                    nearest_spec(world.entities@, *ray, k as int).material,
                ),
                best.wf(),
            decreases world.entities@.len() - k,
        {
            let c = world.entities[k].collide(ray);
            if c.collision && (!best.collision || c.t.abs_lt(&best.t)) {
                best = c;
            }
            k = k + 1;
        }
        let ghost spec_hit = nearest_spec(world.entities@, *ray, n);
        if best.collision {
            let stripped = ColliderResult {
                collision: best.collision,
                t: best.t,
                position: best.position,
                normal: best.normal,
                material: None,
            };
            proof {
                assert(stripped == strip_spec(spec_hit));
            }
            match &best.material {
                Some(m) => {
                    let mut acc = m.color.scale(world.ambient);
                    let mut i: usize = 0;
                    while i < m.shaders.len()
                        invariant
                            i <= m.shaders@.len(),
                            world.wf(),
                            ray.wf(),
                            m.wf(),
                            spec_hit == nearest_spec(world.entities@, *ray, n),
                            n == world.entities@.len() as int,
                            spec_hit.collision,
                            spec_hit.material matches Some(smm) && smm.color == m.color
                                && smm.shaders@ == m.shaders@,
                            best.geom() == spec_hit.geom(),
                            best.wf(),
                            stripped == strip_spec(spec_hit),
                            stripped.wf(),
                            acc == spec_shade_parts(
                                *shader,
                                *world,
                                *ray,
                                spec_hit,
                                m.color.scale_spec(world.ambient as int),
                                m.shaders@,
                                i as int,
                            ),
                        decreases m.shaders@.len() - i,
                    {
                        let part = m.shaders[i];
                        match part.kind {
                            PartKind::Reflection => {
                                if ray.bounce <= BOUNCE_CAP {
                                    let new_ray = self.reflect_ray(ray, &best);
                                    proof {
                                        assert(new_ray == reflect_ray_spec(*ray, spec_hit));
                                    }
                                    if !new_ray.direction.eq_zero() {
                                        let sub = self.cast(&new_ray, world, shader);
                                        acc = acc.add(&sub.scale(part.mix));
                                    }
                                }
                            },
                            _ => {
                                match shader.compute(&part, ray, world, &stripped) {
                                    Some(c) => {
                                        acc = acc.add(&c.scale(part.mix));
                                    },
                                    None => {},
                                }
                            },
                        }
                        i = i + 1;
                    }
                    acc
                },
                None => {
                    proof {
                        assert(spec_hit.material is None);
                    }
                    Color::black()
                },
            }
        } else {
            if world.sky.shaders.len() > 0 {
                let part = world.sky.shaders[0];
                match part.kind {
                    PartKind::Reflection => sky_fallback(),
                    _ => {
                        let neg = ColliderResult::negative();
                        match shader.compute(&part, ray, world, &neg) {
                            Some(c) => c,
                            None => sky_fallback(),
                        }
                    },
                }
            } else {
                sky_fallback()
            }
        }
    }

    /// The bounced ray for a reflective component at a hit.
    fn reflect_ray(&self, ray: &Ray, hit: &ColliderResult) -> (r: Ray)
        requires
            ray.wf(),
            hit.wf(),
            ray.bounce <= BOUNCE_CAP,
        ensures
            r == reflect_ray_spec(*ray, *hit),
            r.origin.wf(),
            r.direction.wf(),
    {
        let ox = clamp_coord_i128(
            trunc_div_i128(hit.position.nx, hit.position.den) + sign_i64(hit.normal.x),
        );
        let oy = clamp_coord_i128(
            trunc_div_i128(hit.position.ny, hit.position.den) + sign_i64(hit.normal.y),
        );
        let oz = clamp_coord_i128(
            trunc_div_i128(hit.position.nz, hit.position.den) + sign_i64(hit.normal.z),
        );
        let d = ray.direction;
        let n = hit.normal;
        let nn: i128 = n.dot(&n);
        let dn: i128 = d.dot(&n);
        proof {
            lemma_mul_bound(nn as int, d.x as int, 13835058055282163712, 65536);
            lemma_mul_bound(nn as int, d.y as int, 13835058055282163712, 65536);
            lemma_mul_bound(nn as int, d.z as int, 13835058055282163712, 65536);
            lemma_mul_bound(2 * dn as int, n.x as int, 27670116110564327424, 65536);
            lemma_mul_bound(2 * dn as int, n.y as int, 27670116110564327424, 65536);
            lemma_mul_bound(2 * dn as int, n.z as int, 27670116110564327424, 65536);
        }
        let direction = grid_dir(
            nn * (d.x as i128) - 2 * dn * (n.x as i128),
            nn * (d.y as i128) - 2 * dn * (n.y as i128),
            nn * (d.z as i128) - 2 * dn * (n.z as i128),
        );
        Ray { origin: Vec3 { x: ox, y: oy, z: oz }, direction, bounce: ray.bounce + 1 }
    }
}

/// The ray through pixel `(x, y)` of a `w` by `h` image: from the camera
/// position toward the matching point of the lens plane `LENS_DEPTH` ahead,
/// the direction scaled by `w * h` so the line is exact, then brought onto
/// the grid.
pub open spec fn camera_ray_spec(cam: Camera, x: int, y: int, w: int, h: int) -> Ray {
    let lens_w = cam.size.0 * cam.lens_factor.0;
    let lens_h = cam.size.1 * cam.lens_factor.1;
    let rx = x * lens_w * h - (lens_w / 2) * w * h;
    let ry = y * lens_h * w - (lens_h / 2) * h * w;
    let rz = (LENS_DEPTH as int) * w * h;
    Ray { origin: cam.position, direction: grid_dir_spec(rx, ry, rz), bounce: 0 }
}

/// The ray for the pixel at flat index `idx` (row-major).
pub open spec fn pixel_ray_spec(t: RayTracer, idx: int) -> Ray {
    let w = t.settings.image_size.0 as int;
    let h = t.settings.image_size.1 as int;
    camera_ray_spec(t.camera, idx % w, idx / w, w, h)
}

/// The color of a pixel: one camera ray, cast.
pub open spec fn pixel_color_spec<S: RayBehavior>(
    t: RayTracer,
    shader: S,
    world: World,
    idx: int,
) -> Color {
    spec_cast(shader, world, pixel_ray_spec(t, idx))
}

/// The first pixel of worker `i`'s chunk: chunks are contiguous runs of
/// `total / workers` pixels, the last worker absorbing the remainder.
pub open spec fn chunk_start_spec(total: int, workers: int, i: int) -> int {
    i * (total / workers)
}

pub open spec fn chunk_count_spec(total: int, workers: int, i: int) -> int {
    if i == workers - 1 {
        total - (workers - 1) * (total / workers)
    } else {
        total / workers
    }
}

impl RayTracer {
    pub fn camera_ray(&self, x: u32, y: u32) -> (r: Ray)
        requires
            self.wf(),
            x < self.settings.image_size.0,
            y < self.settings.image_size.1,
        ensures
            r == camera_ray_spec(
                self.camera,
                x as int,
                y as int,
                self.settings.image_size.0 as int,
                self.settings.image_size.1 as int,
            ),
            r.wf(),
            r.bounce == 0,
    {
        let w = self.settings.image_size.0;
        let h = self.settings.image_size.1;
        proof {
            assert(self.camera.size.0 <= COORD_BOUND && self.camera.lens_factor.0 <= COORD_BOUND
                && self.camera.size.1 <= COORD_BOUND && self.camera.lens_factor.1 <= COORD_BOUND)
                by (nonlinear_arith)
                requires
                    0 < self.camera.size.0,
                    0 < self.camera.size.1,
                    0 < self.camera.lens_factor.0,
                    0 < self.camera.lens_factor.1,
                    self.camera.size.0 * self.camera.lens_factor.0 <= COORD_BOUND,
                    self.camera.size.1 * self.camera.lens_factor.1 <= COORD_BOUND,
                    COORD_BOUND == 65536,
            ;
            lemma_mul_bound(
                self.camera.size.0 as int,
                self.camera.lens_factor.0 as int,
                COORD_BOUND as int,
                COORD_BOUND as int,
            );
            lemma_mul_bound(
                self.camera.size.1 as int,
                self.camera.lens_factor.1 as int,
                COORD_BOUND as int,
                COORD_BOUND as int,
            );
        }
        let lens_w: i64 = self.camera.size.0 * self.camera.lens_factor.0;
        let lens_h: i64 = self.camera.size.1 * self.camera.lens_factor.1;
        let half_w: i64 = ((lens_w as u64) / 2) as i64;
        let half_h: i64 = ((lens_h as u64) / 2) as i64;
        proof {
            lemma_mul_bound(x as int, lens_w as int, 16384, 65536);
            lemma_mul_bound((x as int) * (lens_w as int), h as int, 1073741824, 16384);
            lemma_mul_bound(half_w as int, w as int, 65536, 16384);
            lemma_mul_bound((half_w as int) * (w as int), h as int, 1073741824, 16384);
            lemma_mul_bound(y as int, lens_h as int, 16384, 65536);
            lemma_mul_bound((y as int) * (lens_h as int), w as int, 1073741824, 16384);
            lemma_mul_bound(half_h as int, h as int, 65536, 16384);
            lemma_mul_bound((half_h as int) * (h as int), w as int, 1073741824, 16384);
            lemma_mul_bound(LENS_DEPTH as int, w as int, 75, 16384);
            lemma_mul_bound((LENS_DEPTH as int) * (w as int), h as int, 1228800, 16384);
            assert((LENS_DEPTH as int) * (w as int) * (h as int) > 0) by (nonlinear_arith)
                requires
                    w as int >= 1,
                    h as int >= 1,
                    LENS_DEPTH as int == 75,
            ;
        }
        let rx: i128 = (x as i128) * (lens_w as i128) * (h as i128) - (half_w as i128) * (w
            as i128) * (h as i128);
        let ry: i128 = (y as i128) * (lens_h as i128) * (w as i128) - (half_h as i128) * (h
            as i128) * (w as i128);
        let rz: i128 = (LENS_DEPTH as i128) * (w as i128) * (h as i128);
        let direction = grid_dir(rx, ry, rz);
        Ray { origin: self.camera.position, direction, bounce: 0 }
    }

    /// Render one contiguous chunk of pixels (row-major, starting at flat
    /// index `start`): each output pixel is the clamped 8-bit image of its
    /// cast color. Workers render disjoint chunks into separate buffers, so
    /// the image partition needs no locking.
    pub fn render_chunk<S: RayBehavior>(
        &self,
        world: &World,
        shader: &S,
        start: usize,
        count: usize,
    ) -> (buf: Vec<[u8; 3]>)
        requires
            self.wf(),
            world.wf(),
            start + count <= (self.settings.image_size.0 as int) * (
            self.settings.image_size.1 as int),
        ensures
            buf@.len() == count,
            forall|k: int|
                0 <= k < count ==> {
                    let c = pixel_color_spec(*self, *shader, *world, start + k);
                    &&& (#[trigger] buf@[k])[0] == channel_to_byte_spec(c.r as int)
                    &&& buf@[k][1] == channel_to_byte_spec(c.g as int)
                    &&& buf@[k][2] == channel_to_byte_spec(c.b as int)
                },
    {
        let w = self.settings.image_size.0;
        let h = self.settings.image_size.1;
        proof {
            lemma_mul_bound(w as int, h as int, 16384, 16384);
        }
        let mut buf: Vec<[u8; 3]> = Vec::new();
        let mut k: usize = 0;
        while k < count
            invariant
                k <= count,
                self.wf(),
                world.wf(),
                w == self.settings.image_size.0,
                h == self.settings.image_size.1,
                start + count <= (w as int) * (h as int),
                (w as int) * (h as int) <= 268435456,
                buf@.len() == k,
                forall|j: int|
                    0 <= j < k ==> {
                        let c = pixel_color_spec(*self, *shader, *world, start + j);
                        &&& (#[trigger] buf@[j])[0] == channel_to_byte_spec(c.r as int)
                        &&& buf@[j][1] == channel_to_byte_spec(c.g as int)
                        &&& buf@[j][2] == channel_to_byte_spec(c.b as int)
                    },
            decreases count - k,
        {
            let idx: usize = start + k;
            proof {
                lemma_mul_bound(w as int, h as int, 16384, 16384);
                assert(idx as int / (w as int) < h as int) by (nonlinear_arith)
                    requires
                        0 <= idx as int,
                        (idx as int) < (w as int) * (h as int),
                        w as int >= 1,
                ;
            }
            let x: u32 = (idx % (w as usize)) as u32;
            let y: u32 = (idx / (w as usize)) as u32;
            let ray = self.camera_ray(x, y);
            let color = self.cast(&ray, world, shader);
            let px = vec_rgb(&color);
            buf.push(px);
            k = k + 1;
        }
        buf
    }

    /// Render the full image single-threaded: the one chunk covering every
    /// pixel. Callers that parallelize split the range with `chunk_bounds`
    /// and call `render_chunk` per worker.
    pub fn render<S: RayBehavior>(&self, world: &World, shader: &S) -> (buf: Vec<[u8; 3]>)
        requires
            self.wf(),
            world.wf(),
        ensures
            buf@.len() == (self.settings.image_size.0 as int) * (
            self.settings.image_size.1 as int),
            forall|k: int|
                0 <= k < buf@.len() ==> {
                    let c = pixel_color_spec(*self, *shader, *world, k);
                    &&& (#[trigger] buf@[k])[0] == channel_to_byte_spec(c.r as int)
                    &&& buf@[k][1] == channel_to_byte_spec(c.g as int)
                    &&& buf@[k][2] == channel_to_byte_spec(c.b as int)
                },
    {
        let w = self.settings.image_size.0;
        let h = self.settings.image_size.1;
        proof {
            lemma_mul_bound(w as int, h as int, 16384, 16384);
        }
        let total: usize = (w as usize) * (h as usize);
        self.render_chunk(world, shader, 0, total)
    }
}

/// The per-worker partition of `total` pixels: `workers` contiguous chunks,
/// each `total / workers` long, the last absorbing the remainder.
pub fn chunk_bounds(total: usize, workers: usize) -> (r: Vec<(usize, usize)>)
    requires
        workers >= 1,
    ensures
        r@.len() == workers,
        forall|i: int|
            0 <= i < workers ==> (#[trigger] r@[i]).0 == chunk_start_spec(
                total as int,
                workers as int,
                i,
            ) && r@[i].1 == chunk_count_spec(total as int, workers as int, i),
{
    let q: usize = total / workers;
    proof {
        assert(forall|i: int|
            0 <= i < workers as int ==> 0 <= #[trigger] (i * (q as int)) <= (workers as int - 1) * (
            q as int)) by (nonlinear_arith)
            requires
                q as int >= 0,
                workers as int >= 1,
        ;
        assert((workers as int - 1) * (q as int) + (q as int) == (workers as int) * (q as int)
            && (workers as int) * (q as int) <= total as int) by (nonlinear_arith)
            requires
                workers as int >= 1,
                q as int == total as int / (workers as int),
                total as int >= 0,
        ;
    }
    let mut r: Vec<(usize, usize)> = Vec::new();
    let mut i: usize = 0;
    while i < workers
        invariant
            i <= workers,
            workers >= 1,
            q == total / workers,
            forall|j: int|
                0 <= j < workers as int ==> 0 <= #[trigger] (j * (q as int)) <= (workers as int
                    - 1) * (q as int),
            (workers as int - 1) * (q as int) <= total as int,
            r@.len() == i,
            forall|j: int|
                0 <= j < i ==> (#[trigger] r@[j]).0 == chunk_start_spec(
                    total as int,
                    workers as int,
                    j,
                ) && r@[j].1 == chunk_count_spec(total as int, workers as int, j),
        decreases workers - i,
    {
        let start: usize = i * q;
        let c: usize = if i == workers - 1 {
            total - start
        } else {
            q
        };
        r.push((start, c));
        i = i + 1;
    }
    r
}

/// The chunks cover every pixel exactly once: each pixel index falls in
/// some chunk, and distinct chunks never overlap (each ends no later than
/// the next begins) — including when the pixel count is not divisible by
/// the worker count.
pub proof fn lemma_chunks_partition(total: int, workers: int, p: int)
    requires
        workers >= 1,
        0 <= p < total,
    ensures
        exists|i: int|
            0 <= i < workers && #[trigger] chunk_start_spec(total, workers, i) <= p
                < chunk_start_spec(total, workers, i) + chunk_count_spec(total, workers, i),
        forall|i: int, j: int|
            0 <= i < j < workers ==> #[trigger] chunk_start_spec(total, workers, i)
                + chunk_count_spec(total, workers, i) <= #[trigger] chunk_start_spec(
                total,
                workers,
                j,
            ),
{
    let q = total / workers;
    assert(q >= 0 && workers * q <= total && total < workers * q + workers * 1 * (if q == 0 {
        total + 1
    } else {
        q
    })) by (nonlinear_arith)
        requires
            workers >= 1,
            0 <= total,
            q == total / workers,
    ;
    if q == 0 {
        let w1 = workers - 1;
        assert(w1 * q == 0) by (nonlinear_arith)
            requires
                q == 0,
        ;
        assert(chunk_start_spec(total, workers, w1) == 0);
        assert(chunk_count_spec(total, workers, w1) == total);
        assert(0 <= w1 < workers && chunk_start_spec(total, workers, w1) <= p < chunk_start_spec(
            total,
            workers,
            w1,
        ) + chunk_count_spec(total, workers, w1));
    } else {
        let i0 = p / q;
        assert(i0 * q <= p < i0 * q + q && i0 >= 0) by (nonlinear_arith)
            requires
                q >= 1,
                p >= 0,
                i0 == p / q,
        ;
        if i0 < workers - 1 {
            assert(0 <= i0 < workers && chunk_start_spec(total, workers, i0) <= p
                < chunk_start_spec(total, workers, i0) + chunk_count_spec(total, workers, i0));
        } else {
            let w1 = workers - 1;
            assert(w1 * q <= i0 * q) by (nonlinear_arith)
                requires
                    q >= 1,
                    w1 <= i0,
            ;
            assert(chunk_start_spec(total, workers, w1) <= p);
            assert(0 <= w1 < workers && chunk_start_spec(total, workers, w1) <= p
                < chunk_start_spec(total, workers, w1) + chunk_count_spec(total, workers, w1));
        }
    }
    assert forall|i: int, j: int|
        0 <= i < j < workers implies chunk_start_spec(total, workers, i) + chunk_count_spec(
        total,
        workers,
        i,
    ) <= chunk_start_spec(total, workers, j) by {
        assert(i * q + q == (i + 1) * q && (i + 1) * q <= j * q) by (nonlinear_arith)
            requires
                q >= 0,
                i + 1 <= j,
                0 <= i,
        ;
    }
}

/// The nearest-hit scan over the world's top level is sound and minimal: a
/// reported collision is exactly what some entity reports, and no entity
/// reports a strictly nearer one.
#[verifier::rlimit(60)]
pub proof fn lemma_nearest_sound(ents: Seq<WorldEntity>, ray: Ray, k: int)
    requires
        0 <= k <= ents.len(),
        forall|m: int|
            0 <= m < ents.len() ==> (#[trigger] ents[m].collide_spec(ray)).t.den > 0,
    ensures
        nearest_spec(ents, ray, k).collision ==> exists|m: int|
            0 <= m < k && nearest_spec(ents, ray, k) == (#[trigger] ents[m].collide_spec(ray)),
        forall|m: int|
            0 <= m < k && (#[trigger] ents[m].collide_spec(ray)).collision ==> nearest_spec(
                ents,
                ray,
                k,
            ).collision && !ents[m].collide_spec(ray).t.abs_lt_spec(nearest_spec(ents, ray, k).t),
    decreases k,
{
    if k > 0 {
        lemma_nearest_sound(ents, ray, k - 1);
        let prev = nearest_spec(ents, ray, k - 1);
        let cur = ents[k - 1].collide_spec(ray);
        let now = nearest_spec(ents, ray, k);
        if cur.collision && (!prev.collision || cur.t.abs_lt_spec(prev.t)) {
            assert(now == cur);
            assert(now == ents[k - 1].collide_spec(ray));
            assert forall|m: int|
                0 <= m < k && (#[trigger] ents[m].collide_spec(ray)).collision implies now.collision
                    && !ents[m].collide_spec(ray).t.abs_lt_spec(now.t) by {
                if m < k - 1 {
                    let cm = ents[m].collide_spec(ray);
                    if prev.collision && cur.t.abs_lt_spec(prev.t) {
                        crate::geometry::kdtree::lemma_abs_order(cm.t, prev.t, cur.t);
                    } else {
                        assert(!cm.collision);
                    }
                }
            }
        } else {
            assert(now == prev);
        }
    }
}

/// Casting is a pure query: two casts of the same ray against the same
/// world with the same behaviors return the identical color, since each
/// result is pinned to `spec_cast` of the inputs.
pub proof fn lemma_cast_idempotent<S: RayBehavior>(
    shader: S,
    world: World,
    ray: Ray,
    r1: Color,
    r2: Color,
)
    requires
        r1 == spec_cast(shader, world, ray),
        r2 == spec_cast(shader, world, ray),
    ensures
        r1 == r2,
{
}

/// Reflection is bounded: past the bounce cap a reflective component
/// contributes nothing, so a chain of mirrors recurses at most to the cap
/// (each recursive cast also strictly shrinks `cast_fuel`, which is what
/// lets `cast` terminate at all).
pub proof fn lemma_reflection_bounded<S: RayBehavior>(
    shader: S,
    world: World,
    ray: Ray,
    hit: ColliderResult,
    acc0: Color,
    parts: Seq<MaterialPart>,
    k: int,
)
    requires
        0 < k <= parts.len(),
        parts[k - 1].kind is Reflection,
        ray.bounce > BOUNCE_CAP,
    ensures
        spec_shade_parts(shader, world, ray, hit, acc0, parts, k) == spec_shade_parts(
            shader,
            world,
            ray,
            hit,
            acc0,
            parts,
            k - 1,
        ),
        cast_fuel(ray.bounce as int) == 0,
{
}

fn sign_i64(a: i64) -> (r: i128)
    ensures
        r as int == isign(a as int),
{
    if a > 0 {
        1
    } else if a < 0 {
        -1
    } else {
        0
    }
}

fn sky_fallback() -> (r: Color)
    ensures
        r == sky_fallback_spec(),
{
    color_vec(178, 222, 236)
}

/// The default ambient weight (15% of full).
pub open spec fn scale_ambient_default() -> int {
    (FIX_ONE as int) * 15 / 100
}

} // verus!
