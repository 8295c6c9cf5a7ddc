//! A triangle: three indices into a mesh's vertex array, and one into its
//! material table. Winding order is significant: the rasterizer culls
//! triangles whose screen-space winding is not counter-clockwise.

use vstd::prelude::*;

verus! {

#[derive(Clone, Copy, PartialEq, Eq, Structural, Debug)]
pub struct Triangle {
    pub i0: usize,
    pub i1: usize,
    pub i2: usize,
    pub material_index: usize,
}

/// The triangle's indices are valid for a mesh with `n_vertices` vertices
/// and `n_materials` materials.
pub open spec fn triangle_in_bounds(t: Triangle, n_vertices: int, n_materials: int) -> bool {
    t.i0 < n_vertices && t.i1 < n_vertices && t.i2 < n_vertices && t.material_index < n_materials
}

impl Triangle {
    pub fn new(i0: usize, i1: usize, i2: usize, material_index: usize) -> (t: Triangle)
        ensures
            t == (Triangle { i0, i1, i2, material_index }),
    {
        Triangle { i0, i1, i2, material_index }
    }
}

} // verus!
