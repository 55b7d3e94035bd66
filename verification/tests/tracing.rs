use kdtracer::vecmath::Vec3;
use kdtracer::common::{Ray, Entity, Color, NoShade, World, WorldEntity, color_vec};
use kdtracer::geometry::sphere::Sphere;
use kdtracer::lighting::{Light, LightSource, DirectionalLight, PointLight};
use kdtracer::material::Material;
use kdtracer::tracer::{RayTracer, chunk_bounds, BOUNCE_CAP};

fn mirror_material(base: Color) -> Material {
    // Diffuse off, reflection at full weight.
    Material::new_lambert_material(base, 52428, 0, 65536, 0, 20)
}

fn matte_material(base: Color) -> Material {
    Material::new_lambert_material(base, 52428, 65536, 0, 0, 20)
}

fn one_sphere_world(material: Material) -> World {
    let sphere = Sphere::new(Vec3 { x: 0, y: 0, z: 10 }, 1, material);
    let mut world = RayTracer::new_empty_world();
    world.entities.push(WorldEntity::Sphere(sphere));
    world
}

#[test]
fn center_pixel_ray_hits_unit_sphere_head_on() {
    // A unit sphere dead ahead of a camera at the origin facing +z: the ray
    // through the image center must strike it at (0, 0, 9) with a normal
    // pointing straight back.
    let tracer = RayTracer::new_default_renderer((4, 4));
    let ray = tracer.camera_ray(2, 2);
    assert_eq!(ray.origin, Vec3 { x: 0, y: 0, z: 0 });
    assert_eq!(ray.direction, Vec3 { x: 0, y: 0, z: 1200 });
    let sphere = Sphere::new(Vec3 { x: 0, y: 0, z: 10 }, 1, matte_material(color_vec(100, 100, 200)));
    let hit = sphere.collide(&ray);
    assert!(hit.collision);
    assert_eq!(hit.position.nx, 0);
    assert_eq!(hit.position.ny, 0);
    assert_eq!(hit.position.nz, 9 * hit.position.den);
    assert_eq!(hit.normal, Vec3 { x: 0, y: 0, z: -1 });
}

#[test]
fn cast_is_idempotent() {
    let tracer = RayTracer::new_default_renderer((4, 4));
    let world = one_sphere_world(matte_material(color_vec(100, 100, 200)));
    let ray = tracer.camera_ray(2, 2);
    let first = tracer.cast(&ray, &world, &NoShade);
    let second = tracer.cast(&ray, &world, &NoShade);
    assert_eq!(first, second);
}

#[test]
fn cast_hit_without_contributions_is_ambient_base() {
    // Every component declines under NoShade and the reflective weight is
    // zero, so the pixel is exactly the base color under ambient light.
    let tracer = RayTracer::new_default_renderer((4, 4));
    let base = color_vec(100, 100, 200);
    let world = one_sphere_world(matte_material(base));
    let ray = tracer.camera_ray(2, 2);
    let got = tracer.cast(&ray, &world, &NoShade);
    let expected = base.scale(world.ambient);
    assert_eq!(got, expected);
}

#[test]
fn cast_miss_without_sky_shader_is_fallback() {
    let tracer = RayTracer::new_default_renderer((4, 4));
    let world = RayTracer::new_empty_world();
    let ray = tracer.camera_ray(0, 0);
    let got = tracer.cast(&ray, &world, &NoShade);
    assert_eq!(got, color_vec(178, 222, 236));
}

#[test]
fn mirrored_enclosure_terminates_at_bounce_cap() {
    // A closed box of fully mirrored spheres around the camera: casting
    // still terminates, and a ray already past the cap takes no reflection
    // contribution at all.
    let mirror = || mirror_material(color_vec(10, 10, 10));
    let mut world = RayTracer::new_empty_world();
    for (x, y, z) in [
        (30, 0, 0),
        (-30, 0, 0),
        (0, 30, 0),
        (0, -30, 0),
        (0, 0, 30),
        (0, 0, -30),
    ] {
        world.entities.push(WorldEntity::Sphere(Sphere::new(
            Vec3 { x, y, z },
            20,
            mirror(),
        )));
    }
    let tracer = RayTracer::new_default_renderer((4, 4));
    let bounced = Ray { origin: Vec3 { x: 0, y: 0, z: 0 }, direction: Vec3 { x: 0, y: 0, z: 1 }, bounce: BOUNCE_CAP + 1 };
    let flat = tracer.cast(&bounced, &world, &NoShade);
    // Past the cap the mirror declines: only ambient base remains.
    assert_eq!(flat, color_vec(10, 10, 10).scale(world.ambient));
    // From bounce zero the recursion is capped and finishes.
    let fresh = Ray { origin: Vec3 { x: 0, y: 0, z: 0 }, direction: Vec3 { x: 0, y: 0, z: 1 }, bounce: 0 };
    let _ = tracer.cast(&fresh, &world, &NoShade);
}

#[test]
fn render_matches_per_pixel_casts() {
    let tracer = RayTracer::new_default_renderer((4, 2));
    let world = one_sphere_world(matte_material(color_vec(100, 100, 200)));
    let buf = tracer.render(&world, &NoShade);
    assert_eq!(buf.len(), 8);
    for idx in 0..8u32 {
        let x = idx % 4;
        let y = idx / 4;
        let ray = tracer.camera_ray(x, y);
        let c = tracer.cast(&ray, &world, &NoShade);
        let px = kdtracer::common::vec_rgb(&c);
        assert_eq!(buf[idx as usize], px);
    }
}

#[test]
fn chunks_partition_every_pixel_exactly_once() {
    for (total, workers) in [(10usize, 3usize), (7, 7), (5, 8), (16, 4), (1, 1)] {
        let chunks = chunk_bounds(total, workers);
        assert_eq!(chunks.len(), workers);
        let mut covered = vec![0u32; total];
        for &(start, count) in &chunks {
            for p in start..start + count {
                covered[p] += 1;
            }
        }
        assert!(covered.iter().all(|&c| c == 1));
    }
    let chunks = chunk_bounds(10, 3);
    assert_eq!(chunks, vec![(0, 3), (3, 3), (6, 4)]);
}

#[test]
fn directional_light_faces_surfaces() {
    let sun = DirectionalLight::new(Vec3 { x: 1, y: -1, z: 1 }, color_vec(230, 230, 230), 131072);
    let world = RayTracer::new_empty_world();
    // A surface looking back along the light is lit; one looking away is not.
    assert!(sun.visible(&Vec3 { x: 0, y: 0, z: 9 }, &Vec3 { x: -1, y: 1, z: -1 }, &world));
    assert!(!sun.visible(&Vec3 { x: 0, y: 0, z: 9 }, &Vec3 { x: 1, y: -1, z: 1 }, &world));
    let lr = sun.illuminate(&Vec3 { x: 0, y: 0, z: 9 }, &Vec3 { x: 0, y: 0, z: -1 });
    assert_eq!(lr.power, 131072);
    assert_eq!(lr.direction, Vec3 { x: 1, y: -1, z: 1 });
}

#[test]
fn point_light_power_falls_off_with_distance() {
    let lamp = PointLight::new(Vec3 { x: 0, y: 0, z: 0 }, color_vec(255, 255, 255), 65536, 65536);
    let near = lamp.illuminate(&Vec3 { x: 0, y: 0, z: 2 }, &Vec3 { x: 0, y: 0, z: -1 });
    let far = lamp.illuminate(&Vec3 { x: 0, y: 0, z: 200 }, &Vec3 { x: 0, y: 0, z: -1 });
    assert!(near.power > far.power);
    assert_eq!(near.direction, Vec3 { x: 0, y: 0, z: 2 });
    // Exact fixed-point fall-off: brightness / (d2 + 1) at unit attenuation.
    assert_eq!(near.power, 65532);
    let light = Light::Point(lamp);
    assert_eq!(light.color(), color_vec(255, 255, 255));
}

#[test]
fn default_world_has_a_sun_and_ambient() {
    let world = RayTracer::new_empty_world();
    assert_eq!(world.entities.len(), 0);
    assert_eq!(world.light_sources.len(), 1);
    assert_eq!(world.ambient, 9830);
    assert_eq!(world.sky.shaders.len(), 1);
}
