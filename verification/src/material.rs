//! Materials: a base color plus an ordered list of shading components.
//!
//! The shading formulas themselves (Lambert, Phong, cubemap sky) are external
//! collaborators: a component here is plain data naming the formula and its
//! parameters, and the renderer hands it to a [`crate::common`] behavior
//! implementation. The one component the core interprets itself is
//! `Reflection`, whose bounded recursion lives in the tracer.

use vstd::prelude::*;
use crate::common::{Color, FIX_ONE};

verus! {

/// Which shading formula a component invokes. All but `Reflection` are
/// computed outside the core.
#[derive(Clone, Copy, PartialEq, Eq, Structural, Debug)]
pub enum PartKind {
    /// Mirror reflection: re-enters the tracer with a bounced ray.
    Reflection,
    /// Diffuse shading with the given fixed-point albedo.
    Lambert { albedo: u32 },
    /// Specular highlight with the given exponent.
    Phong { alpha: u32 },
    /// Sky sampling from a cubemap.
    Cubemap,
}

/// One shading component: a formula and its blend weight in `[0, 1]`.
#[derive(Clone, Copy, PartialEq, Eq, Structural, Debug)]
pub struct MaterialPart {
    pub mix: u32,
    pub kind: PartKind,
}

/// A material: base color and ordered shading components.
pub struct Material {
    pub color: Color,
    pub shaders: Vec<MaterialPart>,
}

impl Material {
    pub open spec fn wf(self) -> bool {
        forall|i: int| 0 <= i < self.shaders@.len() ==> #[trigger] self.shaders@[i].mix <= FIX_ONE
    }

    /// The standard lit material: a Lambert component, a reflective
    /// component and a Phong component, in that order.
    pub fn new_lambert_material(
        color: Color,
        albedo: u32,
        lambert: u32,
        reflective: u32,
        phong: u32,
        alpha: u32,
    ) -> (r: Material)
        requires
            lambert <= FIX_ONE,
            reflective <= FIX_ONE,
            phong <= FIX_ONE,
        ensures
            r.color == color,
            r.shaders@.len() == 3,
            r.shaders@[0] == (MaterialPart { mix: lambert, kind: PartKind::Lambert { albedo } }),
            r.shaders@[1] == (MaterialPart { mix: reflective, kind: PartKind::Reflection }),
            r.shaders@[2] == (MaterialPart { mix: phong, kind: PartKind::Phong { alpha } }),
            r.wf(),
    {
        let mut shaders: Vec<MaterialPart> = Vec::new();
        shaders.push(MaterialPart { mix: lambert, kind: PartKind::Lambert { albedo } });
        shaders.push(MaterialPart { mix: reflective, kind: PartKind::Reflection });
        shaders.push(MaterialPart { mix: phong, kind: PartKind::Phong { alpha } });
        Material { color, shaders }
    }

    /// The sky material: a single full-weight cubemap component over a black
    /// base.
    pub fn new_sky_material() -> (r: Material)
        ensures
            r.color == Color::black_spec(),
            r.shaders@.len() == 1,
            r.shaders@[0] == (MaterialPart { mix: FIX_ONE, kind: PartKind::Cubemap }),
            r.wf(),
    {
        let mut shaders: Vec<MaterialPart> = Vec::new();
        shaders.push(MaterialPart { mix: FIX_ONE, kind: PartKind::Cubemap });
        Material { color: Color::black(), shaders }
    }
}

impl Clone for Material {
    /// An exact copy: Verus sees that every field is preserved.
    fn clone(&self) -> (r: Self)
        ensures
            r.color == self.color,
            r.shaders@ == self.shaders@,
    {
        let mut shaders: Vec<MaterialPart> = Vec::new();
        let mut i: usize = 0;
        while i < self.shaders.len()
            invariant
                i <= self.shaders@.len(),
                shaders@ == self.shaders@.take(i as int),
            decreases self.shaders@.len() - i,
        {
            shaders.push(self.shaders[i]);
            proof {
                assert(shaders@ =~= self.shaders@.take(i as int + 1));
            }
            i = i + 1;
        }
        proof {
            assert(shaders@ =~= self.shaders@);
        }
        Material { color: self.color, shaders }
    }
}

} // verus!
