//! The spatial index: a k-d tree over entity indices, with rope links
//! between neighboring regions.
//!
//! Nodes live in an arena (`Vec`), children strictly below their parent's
//! index; leaves hold indices into the owner's entity list, so the index
//! never owns geometry and an entity straddling a partition plane can appear
//! in both children. Ropes are a parallel table: per node, six optional
//! neighbor indices, one per face of its box.

use vstd::prelude::*;
use crate::vecmath::{Vec3, Rat, QVec, COORD_BOUND, iabs};
use crate::common::{Ray, ColliderResult, Entity, opt_material_eq};
use crate::geometry::aabb::{AABB, contains_box_spec};

verus! {

/// Leaf threshold: a node with fewer entities than this becomes a leaf.
pub const LEAF_SIZE: usize = 5;

pub enum KDNodeKind {
    Internal { axis: usize, partition: i64, left: usize, right: usize },
    Leaf { entities: Vec<usize> },
}

pub struct KDNode {
    pub aa_bb: AABB,
    pub kind: KDNodeKind,
}

pub struct KDTree {
    pub nodes: Vec<KDNode>,
    /// Per node, the six neighbor links (-x, -y, -z, +x, +y, +z).
    pub ropes: Vec<[Option<usize>; 6]>,
    pub root: usize,
}

/// Structural well-formedness of one arena node: children strictly below
/// their parent, everything on the grid.
pub open spec fn node_struct_wf(nodes: Seq<KDNode>, i: int) -> bool {
    &&& nodes[i].aa_bb.wf()
    &&& match nodes[i].kind {
        KDNodeKind::Internal { axis, partition, left, right } => {
            &&& axis < 3
            &&& -COORD_BOUND <= partition <= COORD_BOUND
            &&& (left as int) < i
            &&& (right as int) < i
        },
        KDNodeKind::Leaf { .. } => true,
    }
}

/// Structure plus leaf entries within an entity table of size `n`.
pub open spec fn node_wf(nodes: Seq<KDNode>, i: int, n: int) -> bool {
    &&& node_struct_wf(nodes, i)
    &&& match nodes[i].kind {
        KDNodeKind::Internal { .. } => true,
        KDNodeKind::Leaf { entities } => forall|k: int|
            0 <= k < entities@.len() ==> (#[trigger] entities@[k] as int) < n,
    }
}

/// Entity `e` appears in some leaf of the subtree rooted at `i`.
pub open spec fn subtree_contains(nodes: Seq<KDNode>, i: int, e: usize) -> bool
    decreases i,
{
    if 0 <= i < nodes.len() {
        match nodes[i].kind {
            KDNodeKind::Leaf { entities } => entities@.contains(e),
            KDNodeKind::Internal { left, right, .. } => if (left as int) < i && (right as int)
                < i {
                subtree_contains(nodes, left as int, e) || subtree_contains(nodes, right as int, e)
            } else {
                false
            },
        }
    } else {
        false
    }
}

/// Node `j` lies in the subtree rooted at `i`.
pub open spec fn in_subtree(nodes: Seq<KDNode>, i: int, j: int) -> bool
    decreases i,
{
    if 0 <= i < nodes.len() {
        j == i || match nodes[i].kind {
            KDNodeKind::Leaf { .. } => false,
            KDNodeKind::Internal { left, right, .. } => if (left as int) < i && (right as int)
                < i {
                in_subtree(nodes, left as int, j) || in_subtree(nodes, right as int, j)
            } else {
                false
            },
        }
    } else {
        false
    }
}

/// Membership facts depend only on the arena prefix up to `i`.
pub proof fn lemma_subtree_frame(nodes1: Seq<KDNode>, nodes2: Seq<KDNode>, i: int, e: usize)
    requires
        0 <= i < nodes1.len(),
        i < nodes2.len(),
        forall|k: int| 0 <= k <= i ==> nodes1[k] == nodes2[k],
    ensures
        subtree_contains(nodes1, i, e) == subtree_contains(nodes2, i, e),
    decreases i,
{
    match nodes1[i].kind {
        KDNodeKind::Leaf { .. } => {},
        KDNodeKind::Internal { left, right, .. } => {
            if (left as int) < i && (right as int) < i {
                lemma_subtree_frame(nodes1, nodes2, left as int, e);
                lemma_subtree_frame(nodes1, nodes2, right as int, e);
            }
        },
    }
}

/// Reachability too depends only on the prefix.
pub proof fn lemma_in_subtree_frame(nodes1: Seq<KDNode>, nodes2: Seq<KDNode>, i: int, j: int)
    requires
        0 <= i < nodes1.len(),
        i < nodes2.len(),
        forall|k: int| 0 <= k <= i ==> nodes1[k] == nodes2[k],
    ensures
        in_subtree(nodes1, i, j) == in_subtree(nodes2, i, j),
    decreases i,
{
    match nodes1[i].kind {
        KDNodeKind::Leaf { .. } => {},
        KDNodeKind::Internal { left, right, .. } => {
            if (left as int) < i && (right as int) < i {
                lemma_in_subtree_frame(nodes1, nodes2, left as int, j);
                lemma_in_subtree_frame(nodes1, nodes2, right as int, j);
            }
        },
    }
}

/// A subtree member's index never exceeds the subtree root's.
pub proof fn lemma_in_subtree_bounds(nodes: Seq<KDNode>, i: int, j: int)
    requires
        0 <= i < nodes.len(),
        forall|k: int| 0 <= k < nodes.len() ==> node_struct_wf(nodes, k),
        in_subtree(nodes, i, j),
    ensures
        0 <= j <= i,
    decreases i,
{
    assert(node_struct_wf(nodes, i));
    match nodes[i].kind {
        KDNodeKind::Leaf { .. } => {},
        KDNodeKind::Internal { left, right, .. } => {
            if j != i {
                if in_subtree(nodes, left as int, j) {
                    lemma_in_subtree_bounds(nodes, left as int, j);
                } else {
                    lemma_in_subtree_bounds(nodes, right as int, j);
                }
            }
        },
    }
}

/// The entity indices a leaf node holds (empty for internal nodes).
pub open spec fn leaf_list(nodes: Seq<KDNode>, j: int) -> Seq<usize> {
    match nodes[j].kind {
        KDNodeKind::Leaf { entities } => entities@,
        KDNodeKind::Internal { .. } => Seq::empty(),
    }
}

/// The coordinate of face `f` of a box (faces 0..3 on the min corner,
/// 3..6 on the max corner, axis `f % 3`).
pub open spec fn face_coord(bb: AABB, f: int) -> int {
    if f < 3 {
        bb.min.axis_spec(f)
    } else {
        bb.max.axis_spec(f - 3)
    }
}

/// `v` with coordinate `a` replaced by `val`.
pub open spec fn set_axis_spec(v: Vec3, a: int, val: int) -> Vec3 {
    if a == 0 {
        Vec3 { x: val as i64, y: v.y, z: v.z }
    } else if a == 1 {
        Vec3 { x: v.x, y: val as i64, z: v.z }
    } else {
        Vec3 { x: v.x, y: v.y, z: val as i64 }
    }
}

/// An internal node's children cover exactly its box, clipped at the
/// partition plane.
pub open spec fn node_children_clipped(nodes: Seq<KDNode>, i: int) -> bool {
    match nodes[i].kind {
        KDNodeKind::Internal { axis, partition, left, right } => {
            &&& nodes[left as int].aa_bb == (AABB {
                min: nodes[i].aa_bb.min,
                max: set_axis_spec(nodes[i].aa_bb.max, axis as int, partition as int),
            })
            &&& nodes[right as int].aa_bb == (AABB {
                min: set_axis_spec(nodes[i].aa_bb.min, axis as int, partition as int),
                max: nodes[i].aa_bb.max,
            })
        },
        KDNodeKind::Leaf { .. } => true,
    }
}

/// A box touches the plane of face `f`: the face's own side of the box sits
/// exactly on the plane.
pub open spec fn borders(bb: AABB, f: int, plane: int) -> bool {
    if f < 3 {
        bb.max.axis_spec(f) == plane
    } else {
        bb.min.axis_spec(f - 3) == plane
    }
}

impl KDTree {
    /// Full well-formedness over an entity table of size `n`: structure,
    /// leaf entries in range, and rope consistency — an absent leaf rope
    /// only on an outer boundary face, and every present leaf rope
    /// bordering the face it crosses.
    pub open spec fn wf_struct(self) -> bool {
        &&& self.nodes@.len() > 0
        &&& self.root as int == self.nodes@.len() - 1
        &&& forall|i: int| 0 <= i < self.nodes@.len() ==> node_struct_wf(self.nodes@, i)
        &&& self.ropes@.len() == self.nodes@.len()
        &&& forall|i: int, f: int|
            0 <= i < self.ropes@.len() && 0 <= f < 6 ==> match #[trigger] self.ropes@[i][f] {
                Some(t) => (t as int) < self.nodes@.len(),
                None => true,
            }
    }

    pub open spec fn wf(self, n: int) -> bool {
        &&& self.wf_struct()
        &&& forall|i: int| 0 <= i < self.nodes@.len() ==> node_wf(self.nodes@, i, n)
        &&& self.rope_consistency()
    }

    /// The rope invariant recorded by construction: for every leaf, an
    /// absent rope slot lies on the outer bound of the whole index, and a
    /// present rope's target spans the crossed face's plane.
    pub open spec fn rope_consistency(self) -> bool {
        forall|j: int, f: int|
            0 <= j < self.nodes@.len() && 0 <= f < 6 && self.nodes@[j].kind is Leaf
                ==> match #[trigger] self.ropes@[j][f] {
                None => face_coord(self.nodes@[j].aa_bb, f) == face_coord(
                    self.nodes@[self.root as int].aa_bb,
                    f,
                ),
                Some(t) => (t as int) < self.nodes@.len() && self.nodes@[t as int].aa_bb.min.axis_spec(
                    f % 3,
                ) <= face_coord(self.nodes@[j].aa_bb, f) <= self.nodes@[t as int].aa_bb.max.axis_spec(
                    f % 3,
                ),
            }
    }
}

/// The rope invariant, as the builder guarantees it of every tree it
/// returns: a leaf's absent rope slot only ever faces the outer bound of
/// the whole index, and a present rope's target spans the plane of the face
/// it crosses. (The rope pass establishes this by construction, so
/// well-formedness carries it.)
pub proof fn lemma_rope_gaps_are_boundaries(tree: KDTree, n: int, j: int, f: int)
    requires
        tree.wf(n),
        0 <= j < tree.nodes@.len(),
        0 <= f < 6,
        tree.nodes@[j].kind is Leaf,
    ensures
        tree.ropes@[j][f] is None ==> face_coord(tree.nodes@[j].aa_bb, f) == face_coord(
            tree.nodes@[tree.root as int].aa_bb,
            f,
        ),
        tree.ropes@[j][f] matches Some(t) ==> (t as int) < tree.nodes@.len()
            && tree.nodes@[t as int].aa_bb.min.axis_spec(f % 3) <= face_coord(
            tree.nodes@[j].aa_bb,
            f,
        ) <= tree.nodes@[t as int].aa_bb.max.axis_spec(f % 3),
{
}

/// The sort key during construction: an entity's bounding-box minimum on the
/// split axis.
pub open spec fn axis_min_key<T: Entity>(entities: Seq<T>, e: usize, axis: int) -> int {
    entities[e as int].bb_spec().min.axis_spec(axis)
}

/// The matching maximum, used when duplicating straddling entities.
pub open spec fn axis_max_key<T: Entity>(entities: Seq<T>, e: usize, axis: int) -> int {
    entities[e as int].bb_spec().max.axis_spec(axis)
}

/// Entity `e`'s box overlaps a node region, in the half-open sense the
/// partition rule uses: strictly before the region's upper face and not
/// before its lower face, on every axis.
pub open spec fn overlaps_open<T: Entity>(entities: Seq<T>, e: usize, region: AABB) -> bool {
    forall|a: int|
        0 <= a < 3 ==> (#[trigger] entities[e as int].bb_spec().min.axis_spec(a))
            < region.max.axis_spec(a) && entities[e as int].bb_spec().max.axis_spec(a)
            >= region.min.axis_spec(a)
}

/// Stable insertion sort of entity indices by bounding-box minimum on the
/// given axis. The result holds exactly the same indices.
fn sort_by_min<T: Entity>(entities: &Vec<T>, idxs: &Vec<usize>, axis: usize) -> (out: Vec<usize>)
    requires
        axis < 3,
        forall|k: int| 0 <= k < idxs@.len() ==> (#[trigger] idxs@[k] as int) < entities@.len(),
        forall|k: int| 0 <= k < entities@.len() ==> (#[trigger] entities@[k]).wf(),
    ensures
        out@.len() == idxs@.len(),
        forall|v: usize| idxs@.contains(v) <==> out@.contains(v),
        forall|k: int| 0 <= k < out@.len() ==> (#[trigger] out@[k] as int) < entities@.len(),
        forall|p: int, q: int|
            0 <= p < q < out@.len() ==> axis_min_key(entities@, #[trigger] out@[p], axis as int)
                <= axis_min_key(entities@, #[trigger] out@[q], axis as int),
{
    let mut out: Vec<usize> = Vec::new();
    let mut j: usize = 0;
    while j < idxs.len()
        invariant
            j <= idxs@.len(),
            out@.len() == j,
            axis < 3,
            forall|k: int| 0 <= k < idxs@.len() ==> (#[trigger] idxs@[k] as int) < entities@.len(),
            forall|k: int| 0 <= k < entities@.len() ==> (#[trigger] entities@[k]).wf(),
            forall|k: int| 0 <= k < out@.len() ==> (#[trigger] out@[k] as int) < entities@.len(),
            forall|v: usize| out@.contains(v) <==> idxs@.take(j as int).contains(v),
            forall|p: int, q: int|
                0 <= p < q < out@.len() ==> axis_min_key(entities@, #[trigger] out@[p], axis as int)
                    <= axis_min_key(entities@, #[trigger] out@[q], axis as int),
        decreases idxs@.len() - j,
    {
        let v: usize = idxs[j];
        let key: i64 = entities[v].bounding_box().min.axis(axis);
        let mut pos: usize = 0;
        while pos < out.len() && entities[out[pos]].bounding_box().min.axis(axis) <= key
            invariant
                pos <= out@.len(),
                axis < 3,
                (v as int) < entities@.len(),
                key as int == axis_min_key(entities@, v, axis as int),
                forall|k: int| 0 <= k < out@.len() ==> (#[trigger] out@[k] as int)
                    < entities@.len(),
                forall|k: int| 0 <= k < entities@.len() ==> (#[trigger] entities@[k]).wf(),
                forall|k: int|
                    0 <= k < pos ==> axis_min_key(entities@, #[trigger] out@[k], axis as int)
                        <= key as int,
            decreases out@.len() - pos,
        {
            pos = pos + 1;
        }
        let ghost old_out = out@;
        out.insert(pos, v);
        proof {
            assert forall|w: usize| out@.contains(w) <==> idxs@.take(
                j as int + 1,
            ).contains(w) by {
                assert(out@ == old_out.insert(pos as int, v));
                if out@.contains(w) {
                    let k = choose|k: int| 0 <= k < out@.len() && #[trigger] out@[k] == w;
                    if k < pos {
                        assert(old_out[k] == w);
                        assert(old_out.contains(w));
                    } else if k == pos {
                        assert(w == v);
                        assert(idxs@.take(j as int + 1)[j as int] == v);
                    } else {
                        assert(old_out[k - 1] == w);
                        assert(old_out.contains(w));
                    }
                    if old_out.contains(w) {
                        assert(idxs@.take(j as int).contains(w));
                        let m = choose|m: int|
                            0 <= m < j && #[trigger] idxs@.take(j as int)[m] == w;
                        assert(idxs@.take(j as int + 1)[m] == w);
                    }
                }
                if idxs@.take(j as int + 1).contains(w) {
                    let m = choose|m: int|
                        0 <= m < j + 1 && #[trigger] idxs@.take(j as int + 1)[m] == w;
                    if m < j {
                        assert(idxs@.take(j as int)[m] == w);
                        assert(old_out.contains(w));
                        let k = choose|k: int| 0 <= k < old_out.len() && #[trigger] old_out[k] == w;
                        if k < pos {
                            assert(out@[k] == w);
                        } else {
                            assert(out@[k + 1] == w);
                        }
                    } else {
                        assert(w == v);
                        assert(out@[pos as int] == v);
                    }
                }
            }
            assert forall|p: int, q: int|
                0 <= p < q < out@.len() implies axis_min_key(
                entities@,
                #[trigger] out@[p],
                axis as int,
            ) <= axis_min_key(entities@, #[trigger] out@[q], axis as int) by {
                assert(out@ == old_out.insert(pos as int, v));
                if q < pos {
                    assert(out@[p] == old_out[p] && out@[q] == old_out[q]);
                } else if q == pos {
                    assert(out@[p] == old_out[p] && out@[q] == v);
                } else {
                    assert(out@[q] == old_out[q - 1]);
                    if p < pos {
                        assert(out@[p] == old_out[p]);
                        if p < q - 1 {
                            assert(axis_min_key(entities@, old_out[p], axis as int)
                                <= axis_min_key(entities@, old_out[q - 1], axis as int));
                        }
                    } else if p == pos {
                        assert(out@[p] == v);
                        assert(axis_min_key(entities@, old_out[pos as int], axis as int) > key
                            as int);
                        if (pos as int) < q - 1 {
                            assert(axis_min_key(entities@, old_out[pos as int], axis as int)
                                <= axis_min_key(entities@, old_out[q - 1], axis as int));
                        }
                    } else {
                        assert(out@[p] == old_out[p - 1]);
                    }
                }
            }
        }
        j = j + 1;
    }
    proof {
        assert(idxs@.take(idxs@.len() as int) =~= idxs@);
    }
    out
}

/// The parent bound clipped at the partition: the left child's box.
fn clip_max(bound: &AABB, axis: usize, v: i64) -> (r: AABB)
    requires
        bound.wf(),
        axis < 3,
        bound.min.axis_spec(axis as int) <= v <= bound.max.axis_spec(axis as int),
    ensures
        r.wf(),
        r.min == bound.min,
        r.max.axis_spec(axis as int) == v,
        forall|a: int| 0 <= a < 3 && a != axis ==> r.max.axis_spec(a) == bound.max.axis_spec(a),
        contains_box_spec(*bound, r),
        r == (AABB { min: bound.min, max: set_axis_spec(bound.max, axis as int, v as int) }),
{
    if axis == 0 {
        AABB { min: bound.min, max: Vec3 { x: v, y: bound.max.y, z: bound.max.z } }
    } else if axis == 1 {
        AABB { min: bound.min, max: Vec3 { x: bound.max.x, y: v, z: bound.max.z } }
    } else {
        AABB { min: bound.min, max: Vec3 { x: bound.max.x, y: bound.max.y, z: v } }
    }
}

/// The parent bound clipped at the partition: the right child's box.
fn clip_min(bound: &AABB, axis: usize, v: i64) -> (r: AABB)
    requires
        bound.wf(),
        axis < 3,
        bound.min.axis_spec(axis as int) <= v <= bound.max.axis_spec(axis as int),
    ensures
        r.wf(),
        r.max == bound.max,
        r.min.axis_spec(axis as int) == v,
        forall|a: int| 0 <= a < 3 && a != axis ==> r.min.axis_spec(a) == bound.min.axis_spec(a),
        contains_box_spec(*bound, r),
        r == (AABB { min: set_axis_spec(bound.min, axis as int, v as int), max: bound.max }),
{
    if axis == 0 {
        AABB { min: Vec3 { x: v, y: bound.min.y, z: bound.min.z }, max: bound.max }
    } else if axis == 1 {
        AABB { min: Vec3 { x: bound.min.x, y: v, z: bound.min.z }, max: bound.max }
    } else {
        AABB { min: Vec3 { x: bound.min.x, y: bound.min.y, z: v }, max: bound.max }
    }
}

/// Recursive construction (spatial-median/entity-median hybrid as described
/// in the partitioning rule). Appends the subtree's nodes to the arena and
/// returns the subtree root's index. Every entity handed in reaches some
/// leaf, every leaf holds only entities handed in, and every node's box lies
/// within the bound it was built for.
fn build_tree<T: Entity>(
    entities: &Vec<T>,
    idxs: Vec<usize>,
    axis: usize,
    bound: AABB,
    nodes: &mut Vec<KDNode>,
) -> (root: usize)
    requires
        axis < 3,
        forall|k: int| 0 <= k < idxs@.len() ==> (#[trigger] idxs@[k] as int) < entities@.len(),
        forall|k: int| 0 <= k < entities@.len() ==> (#[trigger] entities@[k]).wf(),
        bound.wf(),
    ensures
        final(nodes)@.len() > old(nodes)@.len(),
        root as int == final(nodes)@.len() - 1,
        forall|k: int| 0 <= k < old(nodes)@.len() ==> final(nodes)@[k] == old(nodes)@[k],
        forall|i: int|
            old(nodes)@.len() <= i < final(nodes)@.len() ==> node_wf(
                final(nodes)@,
                i,
                entities@.len() as int,
            ),
        final(nodes)@[root as int].aa_bb == bound,
        forall|e: usize| idxs@.contains(e) ==> subtree_contains(final(nodes)@, root as int, e),
        forall|j: int|
            #[trigger] in_subtree(final(nodes)@, root as int, j) ==> old(nodes)@.len() <= j
                < final(nodes)@.len() && contains_box_spec(bound, final(nodes)@[j].aa_bb) && (
            forall|e: usize|
                leaf_list(final(nodes)@, j).contains(e) ==> idxs@.contains(e)),
        forall|e: usize, j: int|
            #![trigger in_subtree(final(nodes)@, root as int, j), idxs@.contains(e)]
            idxs@.contains(e) && in_subtree(final(nodes)@, root as int, j)
                && (final(nodes)@[j].kind is Leaf)
                && overlaps_open(entities@, e, final(nodes)@[j].aa_bb)
                ==> leaf_list(final(nodes)@, j).contains(e),
        forall|j: int|
            old(nodes)@.len() <= j < final(nodes)@.len() ==> in_subtree(
                final(nodes)@,
                root as int,
                j,
            ),
        forall|j: int|
            old(nodes)@.len() <= j < final(nodes)@.len() ==> node_children_clipped(
                final(nodes)@,
                j,
            ),
    decreases idxs@.len(),
{
    let n_ents = idxs.len();
    if n_ents < LEAF_SIZE {
        nodes.push(KDNode { aa_bb: bound, kind: KDNodeKind::Leaf { entities: idxs } });
        let root = nodes.len() - 1;
        proof {
            assert(nodes@[root as int].kind matches KDNodeKind::Leaf { entities } && entities@
                == idxs@);
        }
        return root;
    }
    let sorted = sort_by_min(entities, &idxs, axis);
    let median = n_ents / 2;
    let mut partition: i64 = entities[sorted[median]].bounding_box().min.axis(axis);
    let bmin: i64 = bound.min.axis(axis);
    let bmax: i64 = bound.max.axis(axis);
    if partition <= bmin || partition >= bmax {
        // Degenerate (or out-of-bound, for a duplicated straddler): use the
        // spatial midpoint so neither side is starved.
        partition = bmin + ((bmax - bmin) as u64 / 2) as i64;
    }
    let ghost all = sorted@;
    let mut left = sorted;
    let mut right = left.split_off(median);
    let ghost left0 = left@;
    let ghost right0 = right@;
    let right_orig = right.len();
    let mut i: usize = 0;
    while i < median
        invariant
            i <= median,
            median < n_ents,
            n_ents == all.len(),
            left@ == left0,
            left0 == all.take(median as int),
            forall|k: int| 0 <= k < all.len() ==> (#[trigger] all[k] as int) < entities@.len(),
            forall|k: int| 0 <= k < entities@.len() ==> (#[trigger] entities@[k]).wf(),
            right@.len() >= right_orig,
            right@.len() <= n_ents + i,
            right_orig == right0.len(),
            forall|k: int| 0 <= k < right_orig ==> right@[k] == right0[k],
            right0 == all.skip(median as int),
            forall|k: int| 0 <= k < right@.len() ==> all.contains(#[trigger] right@[k]),
            forall|mm: int|
                0 <= mm < i && axis_max_key(entities@, #[trigger] left0[mm], axis as int)
                    >= partition as int ==> right@.contains(left0[mm]),
            axis < 3,
        decreases median - i,
    {
        let e = left[i];
        proof {
            assert(all.contains(left0[i as int]));
        }
        let ghost right_pre = right@;
        let dup = entities[e].bounding_box().max.axis(axis) >= partition;
        if dup {
            right.push(e);
        }
        proof {
            assert forall|mm: int|
                0 <= mm < i + 1 && axis_max_key(entities@, left0[mm], axis as int) >= partition
                    as int implies right@.contains(left0[mm]) by {
                if mm < i {
                    let w = left0[mm];
                    let k0 = choose|k0: int| 0 <= k0 < right_pre.len() && #[trigger] right_pre[k0]
                        == w;
                    assert(right@[k0] == w);
                } else {
                    assert(dup);
                    assert(right@[right@.len() - 1] == left0[mm]);
                }
            }
        }
        i = i + 1;
    }
    let mut k: usize = 0;
    while k < right_orig
        invariant
            k <= right_orig,
            median < n_ents,
            n_ents == all.len(),
            left@.len() >= left0.len(),
            left@.len() <= median + k,
            forall|j: int| 0 <= j < left0.len() ==> left@[j] == left0[j],
            left0 == all.take(median as int),
            forall|j: int| 0 <= j < all.len() ==> (#[trigger] all[j] as int) < entities@.len(),
            forall|j: int| 0 <= j < entities@.len() ==> (#[trigger] entities@[j]).wf(),
            right_orig <= right@.len(),
            right_orig == right0.len(),
            forall|j: int| 0 <= j < right_orig ==> right@[j] == right0[j],
            right0 == all.skip(median as int),
            forall|j: int| 0 <= j < left@.len() ==> all.contains(#[trigger] left@[j]),
            forall|j: int| 0 <= j < right@.len() ==> all.contains(#[trigger] right@[j]),
            forall|mm: int|
                0 <= mm < left0.len() && axis_max_key(entities@, #[trigger] left0[mm], axis as int)
                    >= partition as int ==> right@.contains(left0[mm]),
            forall|mm: int|
                0 <= mm < k && axis_min_key(entities@, #[trigger] right0[mm], axis as int)
                    < partition as int ==> left@.contains(right0[mm]),
            axis < 3,
        decreases right_orig - k,
    {
        let e = right[k];
        let ghost left_pre = left@;
        let dup = entities[e].bounding_box().min.axis(axis) < partition;
        if dup {
            left.push(e);
        }
        proof {
            assert forall|mm: int|
                0 <= mm < k + 1 && axis_min_key(entities@, right0[mm], axis as int) < partition
                    as int implies left@.contains(right0[mm]) by {
                if mm < k {
                    let w = right0[mm];
                    let k0 = choose|k0: int| 0 <= k0 < left_pre.len() && #[trigger] left_pre[k0]
                        == w;
                    assert(left@[k0] == w);
                } else {
                    assert(dup);
                    assert(left@[left@.len() - 1] == right0[mm]);
                }
            }
        }
        k = k + 1;
    }
    if left.len() >= n_ents || right.len() >= n_ents {
        // No progress: a degenerate input set. A single leaf over the
        // original entities keeps the index correct and terminates.
        nodes.push(KDNode { aa_bb: bound, kind: KDNodeKind::Leaf { entities: idxs } });
        let root = nodes.len() - 1;
        return root;
    }
    let left_bb = clip_max(&bound, axis, partition);
    let right_bb = clip_min(&bound, axis, partition);
    let next_axis: usize = if axis == 2 {
        0
    } else {
        axis + 1
    };
    let ghost arena0 = nodes@;
    let ghost left_seq = left@;
    let ghost right_seq = right@;
    proof {
        assert(forall|j: int| 0 <= j < left@.len() ==> (#[trigger] left@[j] as int)
            < entities@.len());
        assert(forall|j: int| 0 <= j < right@.len() ==> (#[trigger] right@[j] as int)
            < entities@.len());
    }
    let li = build_tree(entities, left, next_axis, left_bb, nodes);
    let ghost arena1 = nodes@;
    let ri = build_tree(entities, right, next_axis, right_bb, nodes);
    let ghost arena2 = nodes@;
    nodes.push(
        KDNode { aa_bb: bound, kind: KDNodeKind::Internal { axis, partition, left: li, right: ri } },
    );
    let root = nodes.len() - 1;
    proof {
        let na = nodes@;
        let n = entities@.len() as int;
        assert(node_wf(na, root as int, n));
        assert forall|idx: int| arena0.len() <= idx < na.len() implies node_wf(na, idx, n) by {
            if idx < arena1.len() {
                assert(node_wf(arena1, idx, n));
                assert(na[idx] == arena1[idx]);
            } else if idx < arena2.len() {
                assert(node_wf(arena2, idx, n));
                assert(na[idx] == arena2[idx]);
            }
        }
        // Every entity reaches the left or right child, hence a leaf.
        assert forall|e: usize| idxs@.contains(e) implies subtree_contains(
            na,
            root as int,
            e,
        ) by {
            assert(all.contains(e));
            let m = choose|m: int| 0 <= m < all.len() && #[trigger] all[m] == e;
            if m < median {
                assert(left_seq[m] == all.take(median as int)[m]);
                assert(left_seq.contains(e));
            } else {
                assert(right_seq[m - median] == all.skip(median as int)[m - median]);
                assert(right_seq.contains(e));
            }
            if left_seq.contains(e) {
                assert(subtree_contains(arena1, li as int, e));
                lemma_subtree_frame(arena1, na, li as int, e);
            } else {
                assert(subtree_contains(arena2, ri as int, e));
                lemma_subtree_frame(arena2, na, ri as int, e);
            }
        }
        // The half-space claims the duplication loops established, at the
        // value level: an entity reaching below the plane is in the left
        // list, one reaching to or past it is in the right list.
        assert forall|e: usize|
            all.contains(e) && axis_min_key(entities@, e, axis as int) < partition
                as int implies left_seq.contains(e) by {
            let m = choose|m: int| 0 <= m < all.len() && #[trigger] all[m] == e;
            if m < median {
                assert(left0[m] == all.take(median as int)[m]);
                assert(left_seq[m] == left0[m]);
            } else {
                assert(right0[m - median] == all.skip(median as int)[m - median]);
            }
        }
        assert forall|e: usize|
            all.contains(e) && axis_max_key(entities@, e, axis as int) >= partition
                as int implies right_seq.contains(e) by {
            let m = choose|m: int| 0 <= m < all.len() && #[trigger] all[m] == e;
            if m < median {
                assert(left0[m] == all.take(median as int)[m]);
            } else {
                assert(right0[m - median] == all.skip(median as int)[m - median]);
                assert(right_seq[m - median] == right0[m - median]);
            }
        }
        // Region nesting and membership soundness, for every subtree node.
        assert forall|j: int| #[trigger] in_subtree(na, root as int, j) implies arena0.len() <= j
            < na.len() && contains_box_spec(bound, na[j].aa_bb) && (forall|e: usize|
            leaf_list(na, j).contains(e) ==> idxs@.contains(e)) by {
            if j != root as int {
                if in_subtree(na, li as int, j) {
                    lemma_in_subtree_frame(arena1, na, li as int, j);
                    assert(in_subtree(arena1, li as int, j));
                    assert(contains_box_spec(left_bb, arena1[j].aa_bb));
                    assert(na[j] == arena1[j]);
                    assert forall|e: usize| leaf_list(na, j).contains(e) implies idxs@.contains(
                        e,
                    ) by {
                        assert(leaf_list(arena1, j) == leaf_list(na, j));
                        assert(left_seq.contains(e));
                        assert(all.contains(e));
                    }
                } else {
                    lemma_in_subtree_frame(arena2, na, ri as int, j);
                    assert(in_subtree(arena2, ri as int, j));
                    assert(contains_box_spec(right_bb, arena2[j].aa_bb));
                    assert(na[j] == arena2[j]);
                    assert forall|e: usize| leaf_list(na, j).contains(e) implies idxs@.contains(
                        e,
                    ) by {
                        assert(leaf_list(arena2, j) == leaf_list(na, j));
                        assert(right_seq.contains(e));
                        assert(all.contains(e));
                    }
                }
            }
        }
        // The straddle guarantee: an entity reaches every leaf whose region
        // its box overlaps, because at this split it lands in whichever
        // child's half-space it touches, and the children guarantee the
        // rest.
        assert forall|e: usize, j: int|
            #![trigger in_subtree(na, root as int, j), idxs@.contains(e)]
            idxs@.contains(e) && in_subtree(na, root as int, j) && na[j].kind is Leaf
                && overlaps_open(entities@, e, na[j].aa_bb) implies leaf_list(na, j).contains(
            e,
        ) by {
            assert(all.contains(e));
            assert((e as int) < entities@.len());
            if in_subtree(na, li as int, j) {
                lemma_in_subtree_frame(arena1, na, li as int, j);
                assert(in_subtree(arena1, li as int, j));
                assert(contains_box_spec(left_bb, arena1[j].aa_bb));
                assert(na[j] == arena1[j]);
                assert(entities@[e as int].bb_spec().min.axis_spec(axis as int)
                    < na[j].aa_bb.max.axis_spec(axis as int));
                assert(na[j].aa_bb.max.axis_spec(axis as int) <= left_bb.max.axis_spec(
                    axis as int,
                )) by {
                    if axis == 0 {
                    } else if axis == 1 {
                    } else {
                    }
                }
                assert(axis_min_key(entities@, e, axis as int) < partition as int);
                assert(left_seq.contains(e));
                assert(overlaps_open(entities@, e, arena1[j].aa_bb));
                assert(leaf_list(arena1, j).contains(e));
                assert(leaf_list(na, j) == leaf_list(arena1, j));
            } else {
                assert(in_subtree(na, ri as int, j));
                lemma_in_subtree_frame(arena2, na, ri as int, j);
                assert(in_subtree(arena2, ri as int, j));
                assert(contains_box_spec(right_bb, arena2[j].aa_bb));
                assert(na[j] == arena2[j]);
                assert(entities@[e as int].bb_spec().max.axis_spec(axis as int)
                    >= na[j].aa_bb.min.axis_spec(axis as int));
                assert(na[j].aa_bb.min.axis_spec(axis as int) >= right_bb.min.axis_spec(
                    axis as int,
                )) by {
                    if axis == 0 {
                    } else if axis == 1 {
                    } else {
                    }
                }
                assert(axis_max_key(entities@, e, axis as int) >= partition as int);
                assert(right_seq.contains(e));
                assert(overlaps_open(entities@, e, arena2[j].aa_bb));
                assert(leaf_list(arena2, j).contains(e));
                assert(leaf_list(na, j) == leaf_list(arena2, j));
            }
        }
        // Every appended node is reachable from this subtree's root, and
        // every internal node's children cover its clipped box.
        assert forall|j: int| arena0.len() <= j < na.len() implies in_subtree(
            na,
            root as int,
            j,
        ) by {
            if j < arena1.len() {
                assert(in_subtree(arena1, li as int, j));
                lemma_in_subtree_frame(arena1, na, li as int, j);
            } else if j < arena2.len() {
                assert(in_subtree(arena2, ri as int, j));
                lemma_in_subtree_frame(arena2, na, ri as int, j);
            }
        }
        assert forall|j: int| arena0.len() <= j < na.len() implies node_children_clipped(
            na,
            j,
        ) by {
            if j < arena1.len() {
                assert(node_children_clipped(arena1, j));
                assert(node_wf(arena1, j, n));
                assert(na[j] == arena1[j]);
                match arena1[j].kind {
                    KDNodeKind::Internal { left, right, .. } => {
                        assert(na[left as int] == arena1[left as int]);
                        assert(na[right as int] == arena1[right as int]);
                    },
                    KDNodeKind::Leaf { .. } => {},
                }
            } else if j < arena2.len() {
                assert(node_children_clipped(arena2, j));
                assert(node_wf(arena2, j, n));
                assert(na[j] == arena2[j]);
                match arena2[j].kind {
                    KDNodeKind::Internal { left, right, .. } => {
                        assert(na[left as int] == arena2[left as int]);
                        assert(na[right as int] == arena2[right as int]);
                    },
                    KDNodeKind::Leaf { .. } => {},
                }
            } else {
                assert(na[li as int].aa_bb == left_bb);
                assert(na[ri as int].aa_bb == right_bb);
            }
        }
    }
    root
}

/// At an internal node, the side a located point falls on: right when the
/// coordinate exceeds the partition, and on the plane itself, the side the
/// ray travels toward (this replaces the floating nudge of a hit point).
pub open spec fn goes_right(p: QVec, d: Vec3, axis: int, partition: int) -> bool {
    ||| p.axis_num_spec(axis) > partition * p.den
    ||| (p.axis_num_spec(axis) == partition * p.den && d.axis_spec(axis) >= 0)
}

/// The leaf that point location reaches from node `i`.
pub open spec fn locate_spec(nodes: Seq<KDNode>, i: int, p: QVec, d: Vec3) -> int
    decreases i,
{
    if 0 <= i < nodes.len() {
        match nodes[i].kind {
            KDNodeKind::Leaf { .. } => i,
            KDNodeKind::Internal { axis, partition, left, right } => if (left as int) < i && (
            right as int) < i {
                if goes_right(p, d, axis as int, partition as int) {
                    locate_spec(nodes, right as int, p, d)
                } else {
                    locate_spec(nodes, left as int, p, d)
                }
            } else {
                i
            },
        }
    } else {
        i
    }
}

/// What `find_point` returns from node `i`: the located leaf, or nothing
/// when the point lies outside that node's box.
pub open spec fn find_from_spec(nodes: Seq<KDNode>, i: int, p: QVec, d: Vec3) -> Option<int> {
    if nodes[i].aa_bb.contains_q_spec(p) {
        Some(locate_spec(nodes, i, p, d))
    } else {
        None
    }
}

/// Point location lands on a leaf.
pub proof fn lemma_locate_leaf(nodes: Seq<KDNode>, i: int, p: QVec, d: Vec3)
    requires
        0 <= i < nodes.len(),
        forall|k: int| 0 <= k < nodes.len() ==> node_struct_wf(nodes, k),
    ensures
        0 <= locate_spec(nodes, i, p, d) < nodes.len(),
        nodes[locate_spec(nodes, i, p, d)].kind is Leaf,
    decreases i,
{
    assert(node_struct_wf(nodes, i));
    match nodes[i].kind {
        KDNodeKind::Leaf { .. } => {},
        KDNodeKind::Internal { axis, partition, left, right } => {
            if goes_right(p, d, axis as int, partition as int) {
                lemma_locate_leaf(nodes, right as int, p, d);
            } else {
                lemma_locate_leaf(nodes, left as int, p, d);
            }
        },
    }
}

/// The best hit among the first `k` entities of a leaf's list: a colliding
/// result with minimal distance along the ray, the earliest on ties.
pub open spec fn scan_spec<T: Entity>(ents: Seq<T>, list: Seq<usize>, ray: Ray, k: int) -> ColliderResult
    decreases k,
{
    if k <= 0 {
        ColliderResult::negative_spec()
    } else {
        let prev = scan_spec(ents, list, ray, k - 1);
        let cur = ents[list[k - 1] as int].collide_spec(ray);
        if cur.collision && (!prev.collision || cur.t.abs_lt_spec(prev.t)) {
            cur
        } else {
            prev
        }
    }
}

/// Linear scan of a leaf: every entity is queried, the nearest collision
/// (by distance along this ray) wins, the earliest on ties.
fn scan_leaf<T: Entity>(entities: &Vec<T>, list: &Vec<usize>, ray: &Ray) -> (r: ColliderResult)
    requires
        forall|k: int| 0 <= k < list@.len() ==> (#[trigger] list@[k] as int) < entities@.len(),
        forall|k: int| 0 <= k < entities@.len() ==> (#[trigger] entities@[k]).wf(),
        ray.wf(),
    ensures
        r.geom() == scan_spec(entities@, list@, *ray, list@.len() as int).geom(),
        opt_material_eq(r.material, scan_spec(entities@, list@, *ray, list@.len() as int).material),
        r.wf(),
{
    let mut acc = ColliderResult::negative();
    let mut k: usize = 0;
    while k < list.len()
        invariant
            k <= list@.len(),
            forall|j: int| 0 <= j < list@.len() ==> (#[trigger] list@[j] as int)
                < entities@.len(),
            forall|j: int| 0 <= j < entities@.len() ==> (#[trigger] entities@[j]).wf(),
            ray.wf(),
            acc.geom() == scan_spec(entities@, list@, *ray, k as int).geom(),
            opt_material_eq(acc.material, scan_spec(entities@, list@, *ray, k as int).material),
            acc.wf(),
        decreases list@.len() - k,
    {
        let c = entities[list[k]].collide(ray);
        if c.collision && (!acc.collision || c.t.abs_lt(&acc.t)) {
            acc = c;
        }
        k = k + 1;
    }
    acc
}

/// The face through which the ray leaves a box: the axis whose far-face
/// candidate achieves the exit (earliest axis on ties), on the min side when
/// the ray travels negatively, else the max side.
pub open spec fn exit_face_spec(bb: AABB, r: Ray) -> int {
    let c0 = bb.inside_candidate_spec(r, 0);
    let c1 = bb.inside_candidate_spec(r, 1);
    let c2 = bb.inside_candidate_spec(r, 2);
    let axis: int = if c0 matches Some(t0) && (c1 matches Some(t1) ==> t0.le_spec(t1)) && (
    c2 matches Some(t2) ==> t0.le_spec(t2)) {
        0
    } else if c1 matches Some(t1) && (c2 matches Some(t2) ==> t1.le_spec(t2)) {
        1
    } else {
        2
    };
    if r.direction.axis_spec(axis) > 0 {
        axis + 3
    } else {
        axis
    }
}

fn exit_face(bb: &AABB, r: &Ray) -> (f: usize)
    requires
        bb.wf(),
        r.wf(),
    ensures
        f as int == exit_face_spec(*bb, *r),
        f < 6,
{
    let c0 = bb.exit_candidate(r, 0);
    let c1 = bb.exit_candidate(r, 1);
    let c2 = bb.exit_candidate(r, 2);
    let a0_best = match (c0, c1, c2) {
        (Some(t0), Some(t1), Some(t2)) => t0.le(&t1) && t0.le(&t2),
        (Some(t0), Some(t1), None) => t0.le(&t1),
        (Some(t0), None, Some(t2)) => t0.le(&t2),
        (Some(_), None, None) => true,
        _ => false,
    };
    let axis: usize = if a0_best {
        0
    } else {
        let a1_best = match (c1, c2) {
            (Some(t1), Some(t2)) => t1.le(&t2),
            (Some(_), None) => true,
            _ => false,
        };
        if a1_best {
            1
        } else {
            2
        }
    };
    if r.direction.axis(axis) > 0 {
        axis + 3
    } else {
        axis
    }
}

fn face_coord_of(bb: &AABB, f: usize) -> (r: i64)
    requires
        f < 6,
    ensures
        r as int == face_coord(*bb, f as int),
{
    if f < 3 {
        bb.min.axis(f)
    } else {
        bb.max.axis(f - 3)
    }
}

impl KDTree {
    /// Point location from node `i`: `None` when the point lies outside the
    /// node's box, else the leaf reached by descending — right of a
    /// partition plane when the coordinate exceeds it, and on the plane, the
    /// side the direction travels toward.
    fn locate_from(&self, i: usize, point: &QVec, dir: &Vec3) -> (r: Option<usize>)
        requires
            self.wf_struct(),
            (i as int) < self.nodes@.len(),
            point.wf(),
        ensures
            match r {
                Some(j) => {
                    &&& find_from_spec(self.nodes@, i as int, *point, *dir) == Some(j as int)
                    &&& (j as int) < self.nodes@.len()
                    &&& self.nodes@[j as int].kind is Leaf
                },
                None => find_from_spec(self.nodes@, i as int, *point, *dir) is None,
            },
    {
        proof {
            assert(node_struct_wf(self.nodes@, i as int));
        }
        if !self.nodes[i].aa_bb.contains_q(point) {
            return None;
        }
        let mut cur: usize = i;
        loop
            invariant
                self.wf_struct(),
                (cur as int) < self.nodes@.len(),
                point.wf(),
                locate_spec(self.nodes@, i as int, *point, *dir) == locate_spec(
                    self.nodes@,
                    cur as int,
                    *point,
                    *dir,
                ),
                self.nodes@[i as int].aa_bb.contains_q_spec(*point),
            decreases cur,
        {
            proof {
                assert(node_struct_wf(self.nodes@, cur as int));
            }
            match &self.nodes[cur].kind {
                KDNodeKind::Leaf { .. } => {
                    return Some(cur);
                },
                KDNodeKind::Internal { axis, partition, left, right } => {
                    let go_right = point.axis_gt_int(*axis, *partition) || (point.axis_eq_int(
                        *axis,
                        *partition,
                    ) && dir.axis(*axis) >= 0);
                    if go_right {
                        cur = *right;
                    } else {
                        cur = *left;
                    }
                },
            }
        }
    }

    /// Locate the leaf whose region holds a (rational) point, starting at
    /// the root; the direction settles which side of a partition plane a
    /// point exactly on it belongs to.
    pub fn find_point(&self, point: &QVec, dir: &Vec3) -> (r: Option<usize>)
        requires
            self.wf_struct(),
            point.wf(),
        ensures
            match r {
                Some(j) => {
                    &&& find_from_spec(self.nodes@, self.root as int, *point, *dir) == Some(
                        j as int,
                    )
                    &&& (j as int) < self.nodes@.len()
                    &&& self.nodes@[j as int].kind is Leaf
                },
                None => find_from_spec(self.nodes@, self.root as int, *point, *dir) is None,
            },
    {
        self.locate_from(self.root, point, dir)
    }
}

/// `|a| >= |b|` and `|c| < |b|` give `|a| > |c|` (all denominators
/// positive): ordering by distance along a ray is transitive.
pub(crate) proof fn lemma_abs_order(a: Rat, b: Rat, c: Rat)
    requires
        a.den > 0,
        b.den > 0,
        c.den > 0,
        !a.abs_lt_spec(b),
        c.abs_lt_spec(b),
    ensures
        !a.abs_lt_spec(c),
{
    let an = iabs(a.num as int);
    let bn = iabs(b.num as int);
    let cn = iabs(c.num as int);
    assert(an * b.den >= bn * a.den);
    assert(cn * b.den < bn * c.den);
    assert(an * (c.den as int) >= cn * (a.den as int)) by (nonlinear_arith)
        requires
            an * (b.den as int) >= bn * (a.den as int),
            cn * (b.den as int) < bn * (c.den as int),
            (a.den as int) > 0,
            (b.den as int) > 0,
            (c.den as int) > 0,
            an >= 0,
            bn >= 0,
            cn >= 0,
    ;
}

/// A leaf scan is sound and leaf-minimal: a reported collision is exactly
/// what some scanned entity reports, and no scanned entity reports a
/// strictly nearer collision.
pub proof fn lemma_scan_sound<T: Entity>(ents: Seq<T>, list: Seq<usize>, ray: Ray, k: int)
    requires
        0 <= k <= list.len(),
        forall|m: int| 0 <= m < list.len() ==> (#[trigger] list[m] as int) < ents.len(),
        forall|m: int|
            0 <= m < ents.len() ==> (#[trigger] ents[m].collide_spec(ray)).t.den > 0,
    ensures
        scan_spec(ents, list, ray, k).collision ==> exists|m: int|
            0 <= m < k && scan_spec(ents, list, ray, k) == (#[trigger] ents[list[m] as int].collide_spec(
                ray,
            )),
        forall|m: int|
            0 <= m < k && (#[trigger] ents[list[m] as int].collide_spec(ray)).collision
                ==> scan_spec(ents, list, ray, k).collision && !ents[list[m] as int].collide_spec(
                ray,
            ).t.abs_lt_spec(scan_spec(ents, list, ray, k).t),
    decreases k,
{
    if k > 0 {
        lemma_scan_sound(ents, list, ray, k - 1);
        let prev = scan_spec(ents, list, ray, k - 1);
        let cur = ents[list[k - 1] as int].collide_spec(ray);
        let now = scan_spec(ents, list, ray, k);
        if cur.collision && (!prev.collision || cur.t.abs_lt_spec(prev.t)) {
            assert(now == cur);
            assert(now == ents[list[k - 1] as int].collide_spec(ray));
            assert forall|m: int|
                0 <= m < k && (#[trigger] ents[list[m] as int].collide_spec(ray)).collision
                    implies now.collision && !ents[list[m] as int].collide_spec(
                ray,
            ).t.abs_lt_spec(now.t) by {
                if m < k - 1 {
                    let cm = ents[list[m] as int].collide_spec(ray);
                    if prev.collision && cur.t.abs_lt_spec(prev.t) {
                        lemma_abs_order(cm.t, prev.t, cur.t);
                    } else {
                        // `prev` had no collision, so neither did any
                        // earlier entity.
                        assert(!cm.collision);
                    }
                }
            }
        } else {
            assert(now == prev);
        }
    }
}

/// The rope walk is sound: a collision it reports is exactly the result
/// some indexed entity reports for this ray — the index never fabricates a
/// hit.
pub proof fn lemma_traverse_sound<T: Entity>(
    tree: KDTree,
    ents: Seq<T>,
    ray: Ray,
    cur: Option<int>,
    fuel: nat,
)
    requires
        forall|i: int| 0 <= i < tree.nodes@.len() ==> node_wf(tree.nodes@, i, ents.len() as int),
        forall|m: int|
            0 <= m < ents.len() ==> (#[trigger] ents[m].collide_spec(ray)).t.den > 0,
    ensures
        traverse_spec(tree, ents, ray, cur, fuel).collision ==> exists|i: int|
            0 <= i < ents.len() && traverse_spec(tree, ents, ray, cur, fuel) == (
            #[trigger] ents[i].collide_spec(ray)),
    decreases fuel,
{
    match cur {
        None => {},
        Some(leaf) => {
            if fuel == 0 || !(0 <= leaf < tree.nodes@.len()) {
            } else {
                let list = leaf_list(tree.nodes@, leaf);
                assert(node_wf(tree.nodes@, leaf, ents.len() as int));
                assert(forall|m: int| 0 <= m < list.len() ==> (#[trigger] list[m] as int)
                    < ents.len());
                lemma_scan_sound(ents, list, ray, list.len() as int);
                let best = scan_spec(ents, list, ray, list.len() as int);
                if best.collision {
                    let m = choose|m: int|
                        0 <= m < list.len() && best == (#[trigger] ents[list[m] as int].collide_spec(
                            ray,
                        ));
                    assert(0 <= (list[m] as int) && (list[m] as int) < ents.len());
                } else {
                    match tree.nodes@[leaf].aa_bb.inside_exit_opt_spec(ray) {
                        None => {},
                        Some(te) => {
                            let p = ray.parameterize_spec(te);
                            let f = exit_face_spec(tree.nodes@[leaf].aa_bb, ray);
                            match tree.ropes@[leaf][f] {
                                None => {},
                                Some(nb) => {
                                    lemma_traverse_sound(
                                        tree,
                                        ents,
                                        ray,
                                        find_from_spec(tree.nodes@, nb as int, p, ray.direction),
                                        (fuel - 1) as nat,
                                    );
                                },
                            }
                        },
                    }
                }
            }
        },
    }
}

/// Soundness of the whole indexed query, in the law's shape: a collision
/// from `KDTree::collide` is the exact result of some entity in the table.
pub proof fn lemma_kd_collide_sound<T: Entity>(tree: KDTree, ents: Seq<T>, ray: Ray)
    requires
        tree.wf(ents.len() as int),
        forall|m: int|
            0 <= m < ents.len() ==> (#[trigger] ents[m].collide_spec(ray)).t.den > 0,
    ensures
        kd_collide_spec(tree, ents, ray).collision ==> exists|i: int|
            0 <= i < ents.len() && kd_collide_spec(tree, ents, ray) == (
            #[trigger] ents[i].collide_spec(ray)),
{
    let rb = tree.nodes@[tree.root as int].aa_bb;
    if rb.contains_spec(ray.origin) {
        lemma_traverse_sound(
            tree,
            ents,
            ray,
            Some(locate_spec(tree.nodes@, tree.root as int, QVec::int_spec(ray.origin), ray.direction)),
            tree.nodes@.len() as nat,
        );
    } else {
        let rr = rb.collide_rule(ray);
        if rr.collision {
            lemma_traverse_sound(
                tree,
                ents,
                ray,
                find_from_spec(tree.nodes@, tree.root as int, rr.position, ray.direction),
                tree.nodes@.len() as nat,
            );
        }
    }
}

/// Tighten an inherited rope: descend the neighbor subtree toward the most
/// specific node that still borders this node's box across face `f`.
fn adjust_rope(nodes: &Vec<KDNode>, start: usize, f: usize, my_bb: &AABB) -> (r: usize)
    requires
        forall|k: int| 0 <= k < nodes@.len() ==> node_struct_wf(nodes@, k),
        forall|k: int| 0 <= k < nodes@.len() ==> node_children_clipped(nodes@, k),
        (start as int) < nodes@.len(),
        f < 6,
        borders(nodes@[start as int].aa_bb, f as int, face_coord(*my_bb, f as int)),
    ensures
        (r as int) < nodes@.len(),
        borders(nodes@[r as int].aa_bb, f as int, face_coord(*my_bb, f as int)),
{
    let mut cur = start;
    loop
        invariant
            forall|k: int| 0 <= k < nodes@.len() ==> node_struct_wf(nodes@, k),
            forall|k: int| 0 <= k < nodes@.len() ==> node_children_clipped(nodes@, k),
            (cur as int) < nodes@.len(),
            f < 6,
            borders(nodes@[cur as int].aa_bb, f as int, face_coord(*my_bb, f as int)),
        decreases cur,
    {
        proof {
            assert(node_struct_wf(nodes@, cur as int));
            assert(node_children_clipped(nodes@, cur as int));
        }
        match &nodes[cur].kind {
            KDNodeKind::Leaf { .. } => {
                return cur;
            },
            KDNodeKind::Internal { axis, partition, left, right } => {
                if *axis == f % 3 {
                    cur = if f < 3 {
                        *right
                    } else {
                        *left
                    };
                } else if *partition > my_bb.max.axis(*axis) {
                    cur = *left;
                } else if *partition < my_bb.min.axis(*axis) {
                    cur = *right;
                } else {
                    return cur;
                }
            },
        }
    }
}

/// The inherited-rope invariant carried down the tree: an absent slot's
/// face already lies on the outer bound of the whole index, and a present
/// rope's target touches that face's plane with its facing side.
pub open spec fn rope_row_wf(
    nodes: Seq<KDNode>,
    i: int,
    row: [Option<usize>; 6],
    root_bb: AABB,
) -> bool {
    forall|f: int|
        0 <= f < 6 ==> match #[trigger] row[f] {
            None => face_coord(nodes[i].aa_bb, f) == face_coord(root_bb, f),
            Some(t) => (t as int) < nodes.len() && borders(
                nodes[t as int].aa_bb,
                f,
                face_coord(nodes[i].aa_bb, f),
            ),
        }
}

/// What a stored leaf row guarantees: the per-face consistency the index
/// invariant asks for.
pub open spec fn rope_row_consistent(
    nodes: Seq<KDNode>,
    j: int,
    row: [Option<usize>; 6],
    root_bb: AABB,
) -> bool {
    forall|f: int|
        0 <= f < 6 ==> match #[trigger] row[f] {
            None => face_coord(nodes[j].aa_bb, f) == face_coord(root_bb, f),
            Some(t) => (t as int) < nodes.len() && nodes[t as int].aa_bb.min.axis_spec(f % 3)
                <= face_coord(nodes[j].aa_bb, f) <= nodes[t as int].aa_bb.max.axis_spec(f % 3),
        }
}

/// One traversal from the root carrying inherited neighbor links: each
/// internal node tightens them, then hands them to its children with the
/// sibling filled in across the split plane; leaves store theirs. Every
/// leaf below `i` ends with a consistent row, and nothing outside this
/// subtree is touched.
fn make_ropes(
    nodes: &Vec<KDNode>,
    i: usize,
    ropes: [Option<usize>; 6],
    out: &mut Vec<[Option<usize>; 6]>,
    root_bb: Ghost<AABB>,
)
    requires
        forall|k: int| 0 <= k < nodes@.len() ==> node_struct_wf(nodes@, k),
        forall|k: int| 0 <= k < nodes@.len() ==> node_children_clipped(nodes@, k),
        (i as int) < nodes@.len(),
        old(out)@.len() == nodes@.len(),
        rope_row_wf(nodes@, i as int, ropes, root_bb@),
    ensures
        final(out)@.len() == nodes@.len(),
        forall|k: int|
            0 <= k < nodes@.len() && !in_subtree(nodes@, i as int, k) ==> final(out)@[k] == old(
                out,
            )@[k],
        forall|j: int|
            in_subtree(nodes@, i as int, j) && nodes@[j].kind is Leaf ==> rope_row_consistent(
                nodes@,
                j,
                #[trigger] final(out)@[j],
                root_bb@,
            ),
        forall|k: int|
            0 <= k < nodes@.len() && !(nodes@[k].kind is Leaf) ==> final(out)@[k] == old(
                out,
            )@[k],
    decreases i,
{
    proof {
        assert(node_struct_wf(nodes@, i as int));
        assert(node_children_clipped(nodes@, i as int));
    }
    let mut rp: [Option<usize>; 6] = ropes;
    let mut f: usize = 0;
    while f < 6
        invariant
            f <= 6,
            forall|k: int| 0 <= k < nodes@.len() ==> node_struct_wf(nodes@, k),
            forall|k: int| 0 <= k < nodes@.len() ==> node_children_clipped(nodes@, k),
            (i as int) < nodes@.len(),
            rope_row_wf(nodes@, i as int, rp, root_bb@),
        decreases 6 - f,
    {
        match rp[f] {
            Some(nb) => {
                let tightened = adjust_rope(nodes, nb, f, &nodes[i].aa_bb);
                rp[f] = Some(tightened);
            },
            None => {},
        }
        f = f + 1;
    }
    match &nodes[i].kind {
        KDNodeKind::Leaf { .. } => {
            out[i] = rp;
            proof {
                assert forall|g: int|
                    0 <= g < 6 implies match #[trigger] rp[g] {
                    None => face_coord(nodes@[i as int].aa_bb, g) == face_coord(root_bb@, g),
                    Some(t) => (t as int) < nodes@.len()
                        && nodes@[t as int].aa_bb.min.axis_spec(g % 3) <= face_coord(
                        nodes@[i as int].aa_bb,
                        g,
                    ) <= nodes@[t as int].aa_bb.max.axis_spec(g % 3),
                } by {
                    match rp[g] {
                        None => {},
                        Some(t) => {
                            assert(node_struct_wf(nodes@, t as int));
                            assert(borders(
                                nodes@[t as int].aa_bb,
                                g,
                                face_coord(nodes@[i as int].aa_bb, g),
                            ));
                        },
                    }
                }
                assert(rope_row_consistent(nodes@, i as int, rp, root_bb@));
            }
        },
        KDNodeKind::Internal { axis, left, right, .. } => {
            let (a, l, r) = (*axis, *left, *right);
            let ghost parent_bb = nodes@[i as int].aa_bb;
            proof {
                assert forall|g: int| 0 <= g < 6 && g != a + 3 implies face_coord(
                    nodes@[l as int].aa_bb,
                    g,
                ) == face_coord(parent_bb, g) by {}
                assert forall|g: int| 0 <= g < 6 && g != a implies face_coord(
                    nodes@[r as int].aa_bb,
                    g,
                ) == face_coord(parent_bb, g) by {}
            }
            let mut left_ropes = rp;
            left_ropes[a + 3] = Some(r);
            proof {
                assert(face_coord(nodes@[l as int].aa_bb, a + 3) == nodes@[l as int].aa_bb.max.axis_spec(
                    a as int,
                ));
                assert(borders(
                    nodes@[r as int].aa_bb,
                    a + 3,
                    face_coord(nodes@[l as int].aa_bb, a + 3),
                ));
                assert(rope_row_wf(nodes@, l as int, left_ropes, root_bb@));
            }
            make_ropes(nodes, l, left_ropes, out, root_bb);
            let mut right_ropes = rp;
            right_ropes[a] = Some(l);
            proof {
                assert(borders(
                    nodes@[l as int].aa_bb,
                    a as int,
                    face_coord(nodes@[r as int].aa_bb, a as int),
                ));
                assert(rope_row_wf(nodes@, r as int, right_ropes, root_bb@));
            }
            let ghost out_mid = out@;
            make_ropes(nodes, r, right_ropes, out, root_bb);
            proof {
                assert forall|j: int|
                    in_subtree(nodes@, i as int, j) && nodes@[j].kind
                        is Leaf implies rope_row_consistent(
                    nodes@,
                    j,
                    #[trigger] out@[j],
                    root_bb@,
                ) by {
                    if in_subtree(nodes@, r as int, j) {
                        assert(rope_row_consistent(nodes@, j, out@[j], root_bb@));
                    } else {
                        assert(node_struct_wf(nodes@, i as int));
                        assert((l as int) < i as int && (r as int) < i as int);
                        assert(j == i as int || in_subtree(nodes@, l as int, j) || in_subtree(
                            nodes@,
                            r as int,
                            j,
                        ));
                        assert(j != i as int);
                        assert(in_subtree(nodes@, l as int, j));
                        lemma_in_subtree_bounds(nodes@, l as int, j);
                        assert(out@[j] == out_mid[j]);
                        assert(rope_row_consistent(nodes@, j, out_mid[j], root_bb@));
                    }
                }
                assert forall|k: int|
                    0 <= k < nodes@.len() && !in_subtree(nodes@, i as int, k) implies out@[k]
                        == old(out)@[k] by {
                    assert(node_struct_wf(nodes@, i as int));
                    assert((l as int) < i as int && (r as int) < i as int);
                    assert(!in_subtree(nodes@, l as int, k));
                    assert(!in_subtree(nodes@, r as int, k));
                    assert(out_mid[k] == old(out)@[k]);
                    assert(out@[k] == out_mid[k]);
                }
            }
        },
    }
}

/// The rope-walking traversal, one step per unit of fuel: scan the current
/// leaf and return its nearest hit; otherwise leave through the exit face's
/// rope and point-locate the exit in the neighbor subtree. No rope (or no
/// current leaf) means the ray has left the index.
pub open spec fn traverse_spec<T: Entity>(
    tree: KDTree,
    ents: Seq<T>,
    ray: Ray,
    cur: Option<int>,
    fuel: nat,
) -> ColliderResult
    decreases fuel,
{
    match cur {
        None => ColliderResult::negative_spec(),
        Some(leaf) => if fuel == 0 || !(0 <= leaf < tree.nodes@.len()) {
            ColliderResult::negative_spec()
        } else {
            let list = leaf_list(tree.nodes@, leaf);
            let best = scan_spec(ents, list, ray, list.len() as int);
            if best.collision {
                best
            } else {
                match tree.nodes@[leaf].aa_bb.inside_exit_opt_spec(ray) {
                    None => ColliderResult::negative_spec(),
                    Some(te) => {
                        let p = ray.parameterize_spec(te);
                        let f = exit_face_spec(tree.nodes@[leaf].aa_bb, ray);
                        match tree.ropes@[leaf][f] {
                            None => ColliderResult::negative_spec(),
                            Some(nb) => traverse_spec(
                                tree,
                                ents,
                                ray,
                                find_from_spec(tree.nodes@, nb as int, p, ray.direction),
                                (fuel - 1) as nat,
                            ),
                        }
                    },
                }
            }
        },
    }
}

/// What `KDTree::collide` returns: enter through the root box (or start at
/// the origin's own leaf when the origin lies inside the index) and walk
/// the ropes.
pub open spec fn kd_collide_spec<T: Entity>(tree: KDTree, ents: Seq<T>, ray: Ray) -> ColliderResult {
    let rb = tree.nodes@[tree.root as int].aa_bb;
    if rb.contains_spec(ray.origin) {
        traverse_spec(
            tree,
            ents,
            ray,
            Some(locate_spec(tree.nodes@, tree.root as int, QVec::int_spec(ray.origin), ray.direction)),
            tree.nodes@.len() as nat,
        )
    } else {
        let rr = rb.collide_rule(ray);
        if !rr.collision {
            ColliderResult::negative_spec()
        } else {
            traverse_spec(
                tree,
                ents,
                ray,
                find_from_spec(tree.nodes@, tree.root as int, rr.position, ray.direction),
                tree.nodes@.len() as nat,
            )
        }
    }
}

impl KDTree {
    /// Build the index over an entity list: recursive partition, then the
    /// rope pass. The rope invariant is established by construction, so the
    /// returned index is well formed, loses no entity, and duplicates every
    /// straddling entity into each leaf whose region its box overlaps.
    pub fn new<T: Entity>(entities: &Vec<T>) -> (t: KDTree)
        requires
            entities@.len() > 0,
            forall|k: int| 0 <= k < entities@.len() ==> (#[trigger] entities@[k]).wf(),
        ensures
            t.wf(entities@.len() as int),
            forall|e: usize|
                (e as int) < entities@.len() ==> subtree_contains(t.nodes@, t.root as int, e),
            forall|e: usize, j: int|
                #![trigger in_subtree(t.nodes@, t.root as int, j), overlaps_open(entities@, e, t.nodes@[j].aa_bb)]
                (e as int) < entities@.len() && in_subtree(t.nodes@, t.root as int, j) && (
                t.nodes@[j].kind is Leaf) && overlaps_open(entities@, e, t.nodes@[j].aa_bb)
                    ==> leaf_list(t.nodes@, j).contains(e),
            t.nodes@[t.root as int].aa_bb == AABB::union_of(
                Seq::new(entities@.len(), |i: int| entities@[i].bb_spec()),
            ),
    {
        let bound = AABB::from_entities(entities);
        let mut idxs: Vec<usize> = Vec::new();
        let mut i: usize = 0;
        while i < entities.len()
            invariant
                i <= entities@.len(),
                idxs@.len() == i,
                forall|k: int| 0 <= k < i ==> #[trigger] idxs@[k] == k as usize,
            decreases entities@.len() - i,
        {
            idxs.push(i);
            i = i + 1;
        }
        let mut nodes: Vec<KDNode> = Vec::new();
        let ghost idxs_seq = idxs@;
        let root = build_tree(entities, idxs, 0, bound, &mut nodes);
        let mut out: Vec<[Option<usize>; 6]> = Vec::new();
        let mut j: usize = 0;
        while j < nodes.len()
            invariant
                j <= nodes@.len(),
                out@.len() == j,
                forall|k: int, f: int| 0 <= k < out@.len() && 0 <= f < 6 ==> #[trigger] out@[k][f]
                    is None,
            decreases nodes@.len() - j,
        {
            let row: [Option<usize>; 6] = [None, None, None, None, None, None];
            out.push(row);
            j = j + 1;
        }
        let none_row: [Option<usize>; 6] = [None, None, None, None, None, None];
        proof {
            assert forall|k: int| 0 <= k < nodes@.len() implies node_struct_wf(nodes@, k) by {
                assert(node_wf(nodes@, k, entities@.len() as int));
            }
            assert(rope_row_wf(
                nodes@,
                root as int,
                none_row,
                nodes@[root as int].aa_bb,
            ));
        }
        let ghost root_bb_g = nodes@[root as int].aa_bb;
        make_ropes(&nodes, root, none_row, &mut out, Ghost(root_bb_g));
        let t = KDTree { nodes, ropes: out, root };
        proof {
            assert(t.wf_struct());
            assert forall|e: usize| (e as int) < entities@.len() implies subtree_contains(
                t.nodes@,
                t.root as int,
                e,
            ) by {
                assert(idxs_seq[e as int] == e);
                assert(idxs_seq.contains(e));
            }
            assert forall|e: usize, j2: int|
                (e as int) < entities@.len() && in_subtree(t.nodes@, t.root as int, j2) && (
                t.nodes@[j2].kind is Leaf) && overlaps_open(
                entities@,
                e,
                t.nodes@[j2].aa_bb,
            ) implies leaf_list(t.nodes@, j2).contains(e) by {
                assert(idxs_seq[e as int] == e);
                assert(idxs_seq.contains(e));
            }
            assert forall|j2: int, f: int|
                0 <= j2 < t.nodes@.len() && 0 <= f < 6 && t.nodes@[j2].kind
                    is Leaf implies match #[trigger] t.ropes@[j2][f] {
                None => face_coord(t.nodes@[j2].aa_bb, f) == face_coord(
                    t.nodes@[t.root as int].aa_bb,
                    f,
                ),
                Some(tt) => (tt as int) < t.nodes@.len()
                    && t.nodes@[tt as int].aa_bb.min.axis_spec(f % 3) <= face_coord(
                    t.nodes@[j2].aa_bb,
                    f,
                ) <= t.nodes@[tt as int].aa_bb.max.axis_spec(f % 3),
            } by {
                assert(in_subtree(t.nodes@, t.root as int, j2));
                assert(rope_row_consistent(t.nodes@, j2, t.ropes@[j2], root_bb_g));
            }
            assert(t.rope_consistency());
        }
        t
    }

    /// Ray traversal through the index: enter (or start inside), scan leaf
    /// by leaf, hop between neighbors along the ropes. Stops at the first
    /// leaf producing a hit — the nearest within that leaf — or when the
    /// ray leaves the index. The fuel counter bounds the walk by the node
    /// count, so the query is total even on an adversarial rope table.
    pub fn collide<T: Entity>(&self, ray: &Ray, entities: &Vec<T>) -> (r: ColliderResult)
        requires
            self.wf(entities@.len() as int),
            ray.wf(),
            forall|k: int| 0 <= k < entities@.len() ==> (#[trigger] entities@[k]).wf(),
        ensures
            r.geom() == kd_collide_spec(*self, entities@, *ray).geom(),
            opt_material_eq(r.material, kd_collide_spec(*self, entities@, *ray).material),
            r.wf(),
    {
        let ghost goal = kd_collide_spec(*self, entities@, *ray);
        proof {
            assert(node_struct_wf(self.nodes@, self.root as int));
        }
        let root_bb = self.nodes[self.root].aa_bb;
        let mut cur: Option<usize>;
        if root_bb.contains(&ray.origin) {
            let q = QVec::from_int(&ray.origin);
            proof {
                assert(root_bb.contains_q_spec(QVec::int_spec(ray.origin)));
            }
            cur = self.locate_from(self.root, &q, &ray.direction);
        } else {
            let rr = root_bb.collide(ray);
            if !rr.collision {
                return ColliderResult::negative();
            }
            cur = self.locate_from(self.root, &rr.position, &ray.direction);
        }
        let mut fuel: usize = self.nodes.len();
        proof {
            assert(goal == traverse_spec(
                *self,
                entities@,
                *ray,
                match cur {
                    Some(j) => Some(j as int),
                    None => None,
                },
                fuel as nat,
            ));
        }
        loop
            invariant
                self.wf(entities@.len() as int),
                ray.wf(),
                forall|k: int| 0 <= k < entities@.len() ==> (#[trigger] entities@[k]).wf(),
                goal == kd_collide_spec(*self, entities@, *ray),
                goal == traverse_spec(
                    *self,
                    entities@,
                    *ray,
                    match cur {
                        Some(j) => Some(j as int),
                        None => None,
                    },
                    fuel as nat,
                ),
                match cur {
                    Some(j) => (j as int) < self.nodes@.len() && self.nodes@[j as int].kind
                        is Leaf,
                    None => true,
                },
            decreases fuel,
        {
            match cur {
                None => {
                    return ColliderResult::negative();
                },
                Some(leaf) => {
                    if fuel == 0 {
                        return ColliderResult::negative();
                    }
                    proof {
                        assert(node_wf(self.nodes@, leaf as int, entities@.len() as int));
                    }
                    match &self.nodes[leaf].kind {
                        KDNodeKind::Internal { .. } => {
                            proof {
                                assert(false);
                            }
                            return ColliderResult::negative();
                        },
                        KDNodeKind::Leaf { entities: list } => {
                            let best = scan_leaf(entities, list, ray);
                            if best.collision {
                                return best;
                            }
                            match self.nodes[leaf].aa_bb.exit_param(ray) {
                                None => {
                                    return ColliderResult::negative();
                                },
                                Some(te) => {
                                    let p = ray.parameterize(&te);
                                    let f = exit_face(&self.nodes[leaf].aa_bb, ray);
                                    match self.ropes[leaf][f] {
                                        None => {
                                            return ColliderResult::negative();
                                        },
                                        Some(nb) => {
                                            cur = self.locate_from(nb, &p, &ray.direction);
                                            fuel = fuel - 1;
                                        },
                                    }
                                },
                            }
                        },
                    }
                },
            }
        }
    }
}

/// One node after a rigid shift: the box translated (clamped to the grid),
/// an internal partition shifted along its axis, leaf contents unchanged.
pub open spec fn node_translated(old_nd: KDNode, new_nd: KDNode, v: Vec3) -> bool {
    &&& new_nd.aa_bb == (AABB {
        min: Vec3 {
            x: crate::vecmath::clamp_coord(old_nd.aa_bb.min.x + v.x) as i64,
            y: crate::vecmath::clamp_coord(old_nd.aa_bb.min.y + v.y) as i64,
            z: crate::vecmath::clamp_coord(old_nd.aa_bb.min.z + v.z) as i64,
        },
        max: Vec3 {
            x: crate::vecmath::clamp_coord(old_nd.aa_bb.max.x + v.x) as i64,
            y: crate::vecmath::clamp_coord(old_nd.aa_bb.max.y + v.y) as i64,
            z: crate::vecmath::clamp_coord(old_nd.aa_bb.max.z + v.z) as i64,
        },
    })
    &&& match (old_nd.kind, new_nd.kind) {
        (
            KDNodeKind::Internal { axis: a1, partition: p1, left: l1, right: r1 },
            KDNodeKind::Internal { axis: a2, partition: p2, left: l2, right: r2 },
        ) => a2 == a1 && l2 == l1 && r2 == r1 && p2 as int == crate::vecmath::clamp_coord(
            p1 + v.axis_spec(a1 as int),
        ),
        (KDNodeKind::Leaf { entities: e1 }, KDNodeKind::Leaf { entities: e2 }) => e1@ == e2@,
        _ => false,
    }
}

impl KDTree {
    /// Rigid translation of the whole index: every node's box and every
    /// partition plane shift by the translation (leaf contents are the
    /// owner's to move); rope topology is untouched.
    pub fn translate_nodes(&mut self, v: Vec3)
        requires
            old(self).wf_struct(),
            v.wf(),
        ensures
            final(self).nodes@.len() == old(self).nodes@.len(),
            forall|i: int|
                0 <= i < old(self).nodes@.len() ==> node_translated(
                    old(self).nodes@[i],
                    #[trigger] final(self).nodes@[i],
                    v,
                ),
            final(self).ropes@ == old(self).ropes@,
            final(self).root == old(self).root,
            final(self).wf_struct(),
            forall|i: int, n: int|
                0 <= i < old(self).nodes@.len() && node_wf(old(self).nodes@, i, n) ==> node_wf(
                    final(self).nodes@,
                    i,
                    n,
                ),
            old(self).rope_consistency() ==> final(self).rope_consistency(),
    {
        let ghost old_nodes = self.nodes@;
        let mut new_nodes: Vec<KDNode> = Vec::new();
        let mut i: usize = 0;
        while i < self.nodes.len()
            invariant
                i <= self.nodes@.len(),
                self.nodes@ == old_nodes,
                old(self).nodes@ == old_nodes,
                forall|k: int| 0 <= k < old_nodes.len() ==> node_struct_wf(old_nodes, k),
                v.wf(),
                new_nodes@.len() == i,
                forall|k: int|
                    0 <= k < i ==> node_translated(old_nodes[k], #[trigger] new_nodes@[k], v),
            decreases self.nodes@.len() - i,
        {
            proof {
                assert(node_struct_wf(old_nodes, i as int));
            }
            let bb = AABB {
                min: self.nodes[i].aa_bb.min.add(&v),
                max: self.nodes[i].aa_bb.max.add(&v),
            };
            let kind = match &self.nodes[i].kind {
                KDNodeKind::Internal { axis, partition, left, right } => KDNodeKind::Internal {
                    axis: *axis,
                    partition: crate::vecmath::clamp_add_pub(*partition, v.axis(*axis)),
                    left: *left,
                    right: *right,
                },
                KDNodeKind::Leaf { entities } => KDNodeKind::Leaf {
                    entities: copy_indices(entities),
                },
            };
            new_nodes.push(KDNode { aa_bb: bb, kind });
            i = i + 1;
        }
        self.nodes = new_nodes;
        proof {
            assert forall|k: int| 0 <= k < self.nodes@.len() implies node_struct_wf(
                self.nodes@,
                k,
            ) by {
                assert(node_struct_wf(old_nodes, k));
                assert(node_translated(old_nodes[k], self.nodes@[k], v));
            }
            assert forall|i2: int, n: int|
                0 <= i2 < old_nodes.len() && node_wf(old_nodes, i2, n) implies node_wf(
                self.nodes@,
                i2,
                n,
            ) by {
                assert(node_translated(old_nodes[i2], self.nodes@[i2], v));
            }
            if old(self).rope_consistency() {
                assert forall|j: int, f: int|
                    0 <= j < self.nodes@.len() && 0 <= f < 6 && self.nodes@[j].kind is Leaf
                        implies match #[trigger] self.ropes@[j][f] {
                    None => face_coord(self.nodes@[j].aa_bb, f) == face_coord(
                        self.nodes@[self.root as int].aa_bb,
                        f,
                    ),
                    Some(t) => (t as int) < self.nodes@.len()
                        && self.nodes@[t as int].aa_bb.min.axis_spec(f % 3) <= face_coord(
                        self.nodes@[j].aa_bb,
                        f,
                    ) <= self.nodes@[t as int].aa_bb.max.axis_spec(f % 3),
                } by {
                    assert(node_translated(old_nodes[j], self.nodes@[j], v));
                    assert(node_translated(
                        old_nodes[self.root as int],
                        self.nodes@[self.root as int],
                        v,
                    ));
                    assert(old(self).ropes@[j][f] == self.ropes@[j][f]);
                    match self.ropes@[j][f] {
                        None => {},
                        Some(t) => {
                            assert(node_translated(old_nodes[t as int], self.nodes@[t as int], v));
                        },
                    }
                }
            }
        }
    }
}

/// An exact copy of an index list.
fn copy_indices(v: &Vec<usize>) -> (r: Vec<usize>)
    ensures
        r@ == v@,
{
    let mut r: Vec<usize> = Vec::new();
    let mut i: usize = 0;
    while i < v.len()
        invariant
            i <= v@.len(),
            r@ == v@.take(i as int),
        decreases v@.len() - i,
    {
        r.push(v[i]);
        proof {
            assert(r@ =~= v@.take(i as int + 1));
        }
        i = i + 1;
    }
    proof {
        assert(v@.take(v@.len() as int) =~= v@);
    }
    r
}

} // verus!
