use kdtracer::vecmath::{Vec3, Rat, QVec, isqrt, grid_dir};
use kdtracer::common::{Ray, ColliderResult, Entity, Color, color_vec, vec_rgb, lerp, vector3};
use kdtracer::geometry::aabb::AABB;
use kdtracer::geometry::sphere::Sphere;
use kdtracer::geometry::triangle::Triangle;
use kdtracer::geometry::kdtree::{KDTree, KDNodeKind};
use kdtracer::geometry::scene::Scene;
use kdtracer::geometry::model::Model;
use kdtracer::material::{Material, PartKind};

fn gray() -> Color {
    color_vec(128, 128, 128)
}

fn plain_material() -> Material {
    Material::new_lambert_material(gray(), 52428, 65536, 0, 6553, 20)
}

fn sphere_at(x: i64, y: i64, z: i64, r: i64) -> Sphere {
    Sphere::new(Vec3 { x, y, z }, r, plain_material())
}

#[test]
fn isqrt_exact_values() {
    assert_eq!(isqrt(0), 0);
    assert_eq!(isqrt(1), 1);
    assert_eq!(isqrt(2), 1);
    assert_eq!(isqrt(1440000), 1200);
    assert_eq!(isqrt(1440001), 1200);
    assert_eq!(isqrt(u64::MAX as u128), 4294967295);
}

#[test]
fn grid_dir_scales_into_bounds() {
    let v = grid_dir(0, 0, 1200);
    assert_eq!(v, Vec3 { x: 0, y: 0, z: 1200 });
    let w = grid_dir(1 << 30, 0, 1 << 31);
    assert!(w.x.abs() <= 65536 && w.z.abs() <= 65536);
    assert!(w.z != 0);
}

#[test]
fn box_collide_inside_returns_exit() {
    let b = AABB::new(Vec3 { x: -2, y: -2, z: -2 }, Vec3 { x: 2, y: 2, z: 2 });
    let ray = Ray { origin: Vec3 { x: 0, y: 0, z: 0 }, direction: Vec3 { x: 1, y: 0, z: 0 }, bounce: 0 };
    let hit = b.collide(&ray);
    assert!(hit.collision);
    // Exit through the +x face at t = 2, never the entry (-x at t = -2).
    assert_eq!(hit.t, Rat { num: 2, den: 1 });
    assert_eq!(hit.position.nx, 2 * hit.position.den);
    assert_eq!(hit.position.ny, 0);
    assert_eq!(hit.position.nz, 0);
}

#[test]
fn box_collide_inside_picks_min_axis() {
    let b = AABB::new(Vec3 { x: -1, y: -8, z: -8 }, Vec3 { x: 1, y: 8, z: 8 });
    // Diagonal travel: the x slab is tightest, so the exit is on x.
    let ray = Ray { origin: Vec3 { x: 0, y: 0, z: 0 }, direction: Vec3 { x: 1, y: 1, z: 0 }, bounce: 0 };
    let hit = b.collide(&ray);
    assert!(hit.collision);
    assert_eq!(hit.t, Rat { num: 1, den: 1 });
    assert_eq!(hit.position.nx, 1 * hit.position.den);
}

#[test]
fn box_collide_outside_entry_and_miss() {
    let b = AABB::new(Vec3 { x: -1, y: -1, z: -1 }, Vec3 { x: 1, y: 1, z: 1 });
    let toward = Ray { origin: Vec3 { x: -5, y: 0, z: 0 }, direction: Vec3 { x: 1, y: 0, z: 0 }, bounce: 0 };
    let hit = b.collide(&toward);
    assert!(hit.collision);
    assert_eq!(hit.t, Rat { num: 4, den: 1 });
    assert_eq!(hit.position.nx, -1 * hit.position.den);
    let away = Ray { origin: Vec3 { x: -5, y: 0, z: 0 }, direction: Vec3 { x: -1, y: 0, z: 0 }, bounce: 0 };
    assert!(!b.collide(&away).collision);
    let grazing = Ray { origin: Vec3 { x: -5, y: 7, z: 0 }, direction: Vec3 { x: 1, y: 0, z: 0 }, bounce: 0 };
    assert!(!b.collide(&grazing).collision);
}

#[test]
fn box_contains_is_boundary_inclusive() {
    let b = AABB::new(Vec3 { x: 0, y: 0, z: 0 }, Vec3 { x: 4, y: 4, z: 4 });
    assert!(b.contains(&Vec3 { x: 0, y: 4, z: 2 }));
    assert!(!b.contains(&Vec3 { x: 5, y: 1, z: 1 }));
}

#[test]
fn union_box_contains_every_entity_box() {
    let spheres = vec![sphere_at(-10, 0, 5, 2), sphere_at(7, 3, 20, 1), sphere_at(0, -6, 9, 3)];
    let u = AABB::from_entities(&spheres);
    assert_eq!(u.min, Vec3 { x: -12, y: -9, z: 3 });
    assert_eq!(u.max, Vec3 { x: 8, y: 4, z: 21 });
    for s in &spheres {
        let bb = s.bounding_box();
        assert!(u.min.x <= bb.min.x && u.min.y <= bb.min.y && u.min.z <= bb.min.z);
        assert!(bb.max.x <= u.max.x && bb.max.y <= u.max.y && bb.max.z <= u.max.z);
    }
}

#[test]
fn sphere_hit_on_axis_is_exact() {
    let s = sphere_at(0, 0, 10, 1);
    let ray = Ray { origin: Vec3 { x: 0, y: 0, z: 0 }, direction: Vec3 { x: 0, y: 0, z: 1200 }, bounce: 0 };
    let hit = s.collide(&ray);
    assert!(hit.collision);
    assert_eq!(hit.position.nx, 0);
    assert_eq!(hit.position.ny, 0);
    assert_eq!(hit.position.nz, 9 * hit.position.den);
    assert_eq!(hit.normal, Vec3 { x: 0, y: 0, z: -1 });
    assert!(hit.material.is_some());
}

#[test]
fn sphere_behind_origin_misses() {
    let s = sphere_at(0, 0, -10, 1);
    let ray = Ray { origin: Vec3 { x: 0, y: 0, z: 0 }, direction: Vec3 { x: 0, y: 0, z: 1 }, bounce: 0 };
    assert!(!s.collide(&ray).collision);
}

#[test]
fn triangle_hit_and_miss() {
    let tri = Triangle::new(
        Vec3 { x: -10, y: -10, z: 5 },
        Vec3 { x: 10, y: -10, z: 5 },
        Vec3 { x: 0, y: 10, z: 5 },
        Vec3 { x: 0, y: 0, z: -1 },
    );
    let ray = Ray { origin: Vec3 { x: 0, y: 0, z: 0 }, direction: Vec3 { x: 0, y: 0, z: 1 }, bounce: 0 };
    let hit = tri.collide(&ray);
    assert!(hit.collision);
    assert_eq!(hit.position.nx, 0);
    assert_eq!(hit.position.ny, 0);
    assert_eq!(hit.position.nz, 5 * hit.position.den);
    assert_eq!(hit.normal, Vec3 { x: 0, y: 0, z: -1 });
    let away = Ray { origin: Vec3 { x: 0, y: 0, z: 0 }, direction: Vec3 { x: 0, y: 0, z: -1 }, bounce: 0 };
    assert!(!tri.collide(&away).collision);
    let wide = Ray { origin: Vec3 { x: 40, y: 0, z: 0 }, direction: Vec3 { x: 0, y: 0, z: 1 }, bounce: 0 };
    assert!(!tri.collide(&wide).collision);
}

#[test]
fn triangle_compute_normal_is_edge_cross() {
    let mut tri = Triangle::new(
        Vec3 { x: 0, y: 0, z: 5 },
        Vec3 { x: 20, y: 0, z: 5 },
        Vec3 { x: 10, y: 20, z: 5 },
        Vec3 { x: 0, y: 0, z: 0 },
    );
    tri.compute_normal();
    assert_eq!(tri.normal, Vec3 { x: 0, y: 0, z: 400 });
}

fn spread_spheres(n: i64) -> Vec<Sphere> {
    let mut v = Vec::new();
    let mut i = 0i64;
    while i < n {
        v.push(sphere_at(-40 + i * 10, 0, 30, 2));
        i += 1;
    }
    v
}

#[test]
fn kdtree_no_entity_lost() {
    let spheres = spread_spheres(9);
    let tree = KDTree::new(&spheres);
    let mut seen = vec![false; spheres.len()];
    for node in &tree.nodes {
        if let KDNodeKind::Leaf { entities } = &node.kind {
            for &e in entities {
                assert!(e < spheres.len());
                seen[e] = true;
            }
        }
    }
    assert!(seen.iter().all(|&b| b));
}

#[test]
fn kdtree_rope_gaps_only_on_outer_bound() {
    let spheres = spread_spheres(11);
    let tree = KDTree::new(&spheres);
    let root_bb = tree.nodes[tree.root].aa_bb;
    for (j, node) in tree.nodes.iter().enumerate() {
        if let KDNodeKind::Leaf { .. } = &node.kind {
            for f in 0..6usize {
                match tree.ropes[j][f] {
                    None => {
                        let (mine, outer) = if f < 3 {
                            (node.aa_bb.min.axis(f), root_bb.min.axis(f))
                        } else {
                            (node.aa_bb.max.axis(f - 3), root_bb.max.axis(f - 3))
                        };
                        assert_eq!(mine, outer);
                    }
                    Some(t) => {
                        let plane = if f < 3 {
                            node.aa_bb.min.axis(f)
                        } else {
                            node.aa_bb.max.axis(f - 3)
                        };
                        assert!(tree.nodes[t].aa_bb.min.axis(f % 3) <= plane);
                        assert!(plane <= tree.nodes[t].aa_bb.max.axis(f % 3));
                    }
                }
            }
        }
    }
}

#[test]
fn kdtree_find_point_lands_in_containing_leaf() {
    let spheres = spread_spheres(9);
    let tree = KDTree::new(&spheres);
    let p = QVec { nx: -35, ny: 0, nz: 30, den: 1 };
    let dir = Vec3 { x: 1, y: 0, z: 0 };
    let leaf = tree.find_point(&p, &dir).unwrap();
    assert!(matches!(tree.nodes[leaf].kind, KDNodeKind::Leaf { .. }));
    let bb = tree.nodes[leaf].aa_bb;
    assert!(bb.min.x <= -35 && -35 <= bb.max.x);
    assert!(bb.min.y <= 0 && 0 <= bb.max.y);
    assert!(bb.min.z <= 30 && 30 <= bb.max.z);
}

#[test]
fn kdtree_traversal_matches_brute_force() {
    let spheres = spread_spheres(9);
    let tree = KDTree::new(&spheres);
    // A ray down the row: the indexed traversal must report the same hit as
    // a direct scan keeping the nearest collision.
    let rays = [
        Ray { origin: Vec3 { x: -60, y: 0, z: 30 }, direction: Vec3 { x: 1, y: 0, z: 0 }, bounce: 0 },
        Ray { origin: Vec3 { x: 0, y: 0, z: 0 }, direction: Vec3 { x: 0, y: 0, z: 1 }, bounce: 0 },
        Ray { origin: Vec3 { x: 60, y: 0, z: 30 }, direction: Vec3 { x: -1, y: 0, z: 0 }, bounce: 0 },
        Ray { origin: Vec3 { x: -100, y: 50, z: 0 }, direction: Vec3 { x: 0, y: 1, z: 0 }, bounce: 0 },
    ];
    for ray in &rays {
        let indexed = tree.collide(ray, &spheres);
        let mut brute = ColliderResult::negative();
        for s in &spheres {
            let c = s.collide(ray);
            if c.collision && (!brute.collision || c.t.abs_lt(&brute.t)) {
                brute = c;
            }
        }
        assert_eq!(indexed.collision, brute.collision);
        if indexed.collision {
            assert_eq!(indexed.position, brute.position);
            assert_eq!(indexed.normal, brute.normal);
        }
    }
}

#[test]
fn kdtree_translate_shifts_boxes_and_planes() {
    let spheres = spread_spheres(9);
    let mut tree = KDTree::new(&spheres);
    let before = tree.nodes[tree.root].aa_bb;
    tree.translate_nodes(Vec3 { x: 5, y: -3, z: 0 });
    let after = tree.nodes[tree.root].aa_bb;
    assert_eq!(after.min, Vec3 { x: before.min.x + 5, y: before.min.y - 3, z: before.min.z });
    assert_eq!(after.max, Vec3 { x: before.max.x + 5, y: before.max.y - 3, z: before.max.z });
}

#[test]
fn scene_collides_through_its_index() {
    let spheres = spread_spheres(6);
    let scene = Scene::new(spheres, Vec3 { x: 0, y: 0, z: 0 });
    let ray = Ray { origin: Vec3 { x: 0, y: 0, z: 0 }, direction: Vec3 { x: 0, y: 0, z: 1 }, bounce: 0 };
    let hit = scene.collide(&ray);
    assert!(hit.collision);
    assert_eq!(hit.position.nz, 28 * hit.position.den);
}

#[test]
fn model_stamps_its_material_on_hits() {
    let tris = vec![
        Triangle::new(
            Vec3 { x: -10, y: -10, z: 5 },
            Vec3 { x: 10, y: -10, z: 5 },
            Vec3 { x: 0, y: 10, z: 5 },
            Vec3 { x: 0, y: 0, z: -1 },
        ),
        Triangle::new(
            Vec3 { x: -10, y: -10, z: 7 },
            Vec3 { x: 10, y: -10, z: 7 },
            Vec3 { x: 0, y: 10, z: 7 },
            Vec3 { x: 0, y: 0, z: -1 },
        ),
    ];
    let model = Model::new(tris, plain_material(), Vec3 { x: 0, y: 0, z: 0 });
    let ray = Ray { origin: Vec3 { x: 0, y: 0, z: 0 }, direction: Vec3 { x: 0, y: 0, z: 1 }, bounce: 0 };
    let hit = model.collide(&ray);
    assert!(hit.collision);
    assert_eq!(hit.position.nz, 5 * hit.position.den);
    let m = hit.material.expect("a model hit carries the model material");
    assert_eq!(m.color, gray());
}

#[test]
fn entity_translate_moves_sphere() {
    let mut s = sphere_at(0, 0, 10, 1);
    s.translate(Vec3 { x: 3, y: 0, z: -4 });
    assert_eq!(s.position(), Vec3 { x: 3, y: 0, z: 6 });
}

#[test]
fn color_conversions_are_exact_fixed_point() {
    let c = color_vec(100, 150, 200);
    assert_eq!(c, Color { r: 25700, g: 38550, b: 51400 });
    assert_eq!(vec_rgb(&c), [99, 149, 199]);
    let mid = lerp(
        &Color { r: 0, g: 0, b: 0 },
        &Color { r: 65536, g: 65536, b: 65536 },
        32768,
    );
    assert_eq!(mid, Color { r: 32768, g: 32768, b: 32768 });
    assert_eq!(vector3(1, 2, 3), Vec3 { x: 1, y: 2, z: 3 });
}

#[test]
fn lambert_material_has_ordered_components() {
    let m = Material::new_lambert_material(gray(), 52428, 65536, 13107, 6553, 20);
    assert_eq!(m.shaders.len(), 3);
    assert!(matches!(m.shaders[0].kind, PartKind::Lambert { albedo: 52428 }));
    assert_eq!(m.shaders[0].mix, 65536);
    assert!(matches!(m.shaders[1].kind, PartKind::Reflection));
    assert_eq!(m.shaders[1].mix, 13107);
    assert!(matches!(m.shaders[2].kind, PartKind::Phong { alpha: 20 }));
    let sky = Material::new_sky_material();
    assert_eq!(sky.shaders.len(), 1);
    assert!(matches!(sky.shaders[0].kind, PartKind::Cubemap));
    let copy = m.clone();
    assert_eq!(copy.color, m.color);
    assert_eq!(copy.shaders.len(), m.shaders.len());
}

#[test]
fn kdtree_straddlers_reach_every_overlapped_leaf() {
    // A wide sphere straddling the partition planes must be listed in every
    // leaf whose region its box overlaps (half-open on the upper side).
    let mut spheres = spread_spheres(8);
    spheres.push(sphere_at(0, 0, 30, 30));
    let tree = KDTree::new(&spheres);
    for node in &tree.nodes {
        if let KDNodeKind::Leaf { entities } = &node.kind {
            for (e, s) in spheres.iter().enumerate() {
                let bb = s.bounding_box();
                let overlaps = bb.min.x < node.aa_bb.max.x && bb.max.x >= node.aa_bb.min.x
                    && bb.min.y < node.aa_bb.max.y && bb.max.y >= node.aa_bb.min.y
                    && bb.min.z < node.aa_bb.max.z && bb.max.z >= node.aa_bb.min.z;
                if overlaps {
                    assert!(entities.contains(&e));
                }
            }
        }
    }
    let mut leaves_with_straddler = 0;
    for node in &tree.nodes {
        if let KDNodeKind::Leaf { entities } = &node.kind {
            if entities.contains(&8) {
                leaves_with_straddler += 1;
            }
        }
    }
    assert!(leaves_with_straddler >= 2);
}
