//! A mesh: vertices, indexed triangles, a world placement, and a material
//! table, with procedural cube and sphere builders.
//!
//! Vertices are stored mesh-local around the object's own origin; world
//! placement happens in the transform stage through `centre`.

use vstd::prelude::*;

verus! {

use crate::colour::Colour;
use crate::fixed::SCALE;
use crate::fixed::fx_mul;
use crate::fixed::fxmul;
use crate::fixed::iabs;
use crate::fixed::lemma_fx_mul_bound;
use crate::fixed::tdiv;
use crate::fixed::tdiv64;
use crate::material::Material;
use crate::triangle::Triangle;
use crate::triangle::triangle_in_bounds;
use crate::trig::PI_FX;
use crate::trig::TAU_FX;
use crate::trig::cos_fx;
use crate::trig::fx_cos;
use crate::trig::fx_sin;
use crate::trig::lemma_sin_cos_bounded;
use crate::trig::sin_fx;
use crate::vertex::Vertex;
use crate::vertex::coords_bounded;

/// How far any stored coordinate may sit from the mesh origin.
pub const MESH_LIMIT: i64 = 0x2000_0000_0000;

#[derive(Debug)]
pub struct Mesh {
    pub vertices: Vec<Vertex>,
    pub triangles: Vec<Triangle>,
    pub centre: Vertex,
    pub rotate_around_pivot: bool,
    pub pivot: Option<Vertex>,
    pub materials: Vec<Material>,
}

impl Mesh {
    /// Every triangle indexes existing vertices and materials, there is a
    /// material to fall back on, a pivot is present when it is used, and
    /// all stored scalars are bounded.
    pub open spec fn well_formed(self) -> bool {
        &&& self.materials@.len() >= 1
        &&& forall|k: int|
            0 <= k < self.triangles@.len() ==> triangle_in_bounds(
                #[trigger] self.triangles@[k],
                self.vertices@.len() as int,
                self.materials@.len() as int,
            )
        &&& forall|k: int|
            0 <= k < self.vertices@.len() ==> coords_bounded(
                #[trigger] self.vertices@[k],
                MESH_LIMIT as int,
            ) && iabs(self.vertices@[k].u as int) <= MESH_LIMIT && iabs(
                self.vertices@[k].v as int,
            ) <= MESH_LIMIT
        &&& self.rotate_around_pivot ==> self.pivot is Some
        &&& coords_bounded(self.centre, MESH_LIMIT as int)
        &&& match self.pivot {
            Some(p) => coords_bounded(p, MESH_LIMIT as int),
            None => true,
        }
        &&& forall|k: int|
            0 <= k < self.materials@.len() ==> (#[trigger] self.materials@[k]).well_formed()
    }

    /// An empty mesh at the origin with the default opaque white material.
    pub fn new() -> (m: Mesh)
        ensures
            m.well_formed(),
            m.vertices@.len() == 0,
            m.triangles@.len() == 0,
            m.centre == (Vertex { x: 0i64, y: 0i64, z: 0i64, u: 0i64, v: 0i64 }),
            !m.rotate_around_pivot,
            m.pivot is None,
            m.materials@.len() == 1,
            m.materials@[0].kd_texture is None,
            m.materials@[0].diffuse == (Colour { red: 255, green: 255, blue: 255, alpha: 255 }),
    {
        Mesh {
            vertices: Vec::new(),
            triangles: Vec::new(),
            centre: Vertex { x: 0, y: 0, z: 0, u: 0, v: 0 },
            rotate_around_pivot: false,
            pivot: None,
            materials: vec![
                Material {
                    name: Vec::new(),
                    diffuse: Colour { red: 255, green: 255, blue: 255, alpha: 255 },
                    kd_texture: None,
                },
            ],
        }
    }
}

/// The twenty-four vertices of the cube, four per face in the order
/// front, back, left, right, top, bottom.
pub open spec fn cube_vertices(size: int) -> Seq<Vertex> {
    cube_vertices_of_half(tdiv(size, 2))
}

/// The twelve cube triangles: two per face over its four corners.
pub open spec fn cube_triangles() -> Seq<Triangle> {
    seq![
        Triangle { i0: 0, i1: 1, i2: 2, material_index: 0 },
        Triangle { i0: 0, i1: 2, i2: 3, material_index: 0 },
        Triangle { i0: 4, i1: 5, i2: 6, material_index: 0 },
        Triangle { i0: 4, i1: 6, i2: 7, material_index: 0 },
        Triangle { i0: 8, i1: 9, i2: 10, material_index: 0 },
        Triangle { i0: 8, i1: 10, i2: 11, material_index: 0 },
        Triangle { i0: 12, i1: 13, i2: 14, material_index: 0 },
        Triangle { i0: 12, i1: 14, i2: 15, material_index: 0 },
        Triangle { i0: 16, i1: 17, i2: 18, material_index: 0 },
        Triangle { i0: 16, i1: 18, i2: 19, material_index: 0 },
        Triangle { i0: 20, i1: 21, i2: 22, material_index: 0 },
        Triangle { i0: 20, i1: 22, i2: 23, material_index: 0 },
    ]
}

impl Mesh {
    /// A cube of the given size centred at a world position, filled with
    /// one flat colour.
    pub fn cube(centre_x: i64, centre_y: i64, centre_z: i64, size: i64, colour: &Colour) -> (m:
        Mesh)
        requires
            0 <= size <= MESH_LIMIT,
            iabs(centre_x as int) <= MESH_LIMIT,
            iabs(centre_y as int) <= MESH_LIMIT,
            iabs(centre_z as int) <= MESH_LIMIT,
        ensures
            m.well_formed(),
            m.vertices@ == cube_vertices(size as int),
            m.triangles@ == cube_triangles(),
            m.centre == (Vertex { x: centre_x, y: centre_y, z: centre_z, u: 0i64, v: 0i64 }),
            !m.rotate_around_pivot,
            m.pivot is None,
            m.materials@.len() == 1,
            m.materials@[0].diffuse == *colour,
            m.materials@[0].kd_texture is None,
    {
        let mut m = Mesh::new();
        m.create_cube(size);
        m.centre = Vertex { x: centre_x, y: centre_y, z: centre_z, u: 0, v: 0 };
        m.materials = vec![
            Material { name: Vec::new(), diffuse: *colour, kd_texture: None },
        ];
        m
    }

    /// Append the cube's vertices and triangles to an empty mesh.
    fn create_cube(&mut self, size: i64)
        requires
            0 <= size <= MESH_LIMIT,
            old(self).vertices@.len() == 0,
            old(self).triangles@.len() == 0,
        ensures
            final(self).vertices@ == cube_vertices(size as int),
            final(self).triangles@ == cube_triangles(),
            final(self).centre == old(self).centre,
            final(self).rotate_around_pivot == old(self).rotate_around_pivot,
            final(self).pivot == old(self).pivot,
            final(self).materials == old(self).materials,
    {
        let h = tdiv64(size, 2);
        self.vertices.push(Vertex { x: -h, y: -h, z: h, u: 0, v: 65536 });
        self.vertices.push(Vertex { x: h, y: -h, z: h, u: 65536, v: 65536 });
        self.vertices.push(Vertex { x: h, y: h, z: h, u: 65536, v: 0 });
        self.vertices.push(Vertex { x: -h, y: h, z: h, u: 0, v: 0 });
        self.vertices.push(Vertex { x: h, y: -h, z: -h, u: 0, v: 65536 });
        self.vertices.push(Vertex { x: -h, y: -h, z: -h, u: 65536, v: 65536 });
        self.vertices.push(Vertex { x: -h, y: h, z: -h, u: 65536, v: 0 });
        self.vertices.push(Vertex { x: h, y: h, z: -h, u: 0, v: 0 });
        self.vertices.push(Vertex { x: -h, y: -h, z: -h, u: 0, v: 65536 });
        self.vertices.push(Vertex { x: -h, y: -h, z: h, u: 65536, v: 65536 });
        self.vertices.push(Vertex { x: -h, y: h, z: h, u: 65536, v: 0 });
        self.vertices.push(Vertex { x: -h, y: h, z: -h, u: 0, v: 0 });
        self.vertices.push(Vertex { x: h, y: -h, z: h, u: 0, v: 65536 });
        self.vertices.push(Vertex { x: h, y: -h, z: -h, u: 65536, v: 65536 });
        self.vertices.push(Vertex { x: h, y: h, z: -h, u: 65536, v: 0 });
        self.vertices.push(Vertex { x: h, y: h, z: h, u: 0, v: 0 });
        self.vertices.push(Vertex { x: -h, y: h, z: h, u: 0, v: 65536 });
        self.vertices.push(Vertex { x: h, y: h, z: h, u: 65536, v: 65536 });
        self.vertices.push(Vertex { x: h, y: h, z: -h, u: 65536, v: 0 });
        self.vertices.push(Vertex { x: -h, y: h, z: -h, u: 0, v: 0 });
        self.vertices.push(Vertex { x: -h, y: -h, z: -h, u: 0, v: 65536 });
        self.vertices.push(Vertex { x: h, y: -h, z: -h, u: 65536, v: 65536 });
        self.vertices.push(Vertex { x: h, y: -h, z: h, u: 65536, v: 0 });
        self.vertices.push(Vertex { x: -h, y: -h, z: h, u: 0, v: 0 });
        let mut f: usize = 0;
        while f < 6
            invariant
                f <= 6,
                self.vertices@ == old(self).vertices@ + cube_vertices_of_half(h as int),
                self.triangles@.len() == 2 * f,
                self.centre == old(self).centre,
                self.rotate_around_pivot == old(self).rotate_around_pivot,
                self.pivot == old(self).pivot,
                self.materials == old(self).materials,
                forall|q: int| 0 <= q < 2 * f ==> self.triangles@[q] == cube_triangles()[q],
            decreases 6 - f,
        {
            let base = f * 4;
            self.triangles.push(
                Triangle { i0: base, i1: base + 1, i2: base + 2, material_index: 0 },
            );
            self.triangles.push(
                Triangle { i0: base, i1: base + 2, i2: base + 3, material_index: 0 },
            );
            proof {
                assert(self.triangles@[2 * f as int] == cube_triangles()[2 * f as int]);
                assert(self.triangles@[2 * f as int + 1] == cube_triangles()[2 * f as int + 1]);
            }
            f = f + 1;
        }
        proof {
            assert(self.vertices@ =~= cube_vertices(size as int));
            assert(self.triangles@ =~= cube_triangles());
        }
    }
}

/// The cube's vertex list written from its half-size alone.
pub open spec fn cube_vertices_of_half(h: int) -> Seq<Vertex> {
    let s = SCALE as int;
    seq![
        Vertex { x: (-h) as i64, y: (-h) as i64, z: h as i64, u: 0i64, v: s as i64 },
        Vertex { x: h as i64, y: (-h) as i64, z: h as i64, u: s as i64, v: s as i64 },
        Vertex { x: h as i64, y: h as i64, z: h as i64, u: s as i64, v: 0i64 },
        Vertex { x: (-h) as i64, y: h as i64, z: h as i64, u: 0i64, v: 0i64 },
        Vertex { x: h as i64, y: (-h) as i64, z: (-h) as i64, u: 0i64, v: s as i64 },
        Vertex { x: (-h) as i64, y: (-h) as i64, z: (-h) as i64, u: s as i64, v: s as i64 },
        Vertex { x: (-h) as i64, y: h as i64, z: (-h) as i64, u: s as i64, v: 0i64 },
        Vertex { x: h as i64, y: h as i64, z: (-h) as i64, u: 0i64, v: 0i64 },
        Vertex { x: (-h) as i64, y: (-h) as i64, z: (-h) as i64, u: 0i64, v: s as i64 },
        Vertex { x: (-h) as i64, y: (-h) as i64, z: h as i64, u: s as i64, v: s as i64 },
        Vertex { x: (-h) as i64, y: h as i64, z: h as i64, u: s as i64, v: 0i64 },
        Vertex { x: (-h) as i64, y: h as i64, z: (-h) as i64, u: 0i64, v: 0i64 },
        Vertex { x: h as i64, y: (-h) as i64, z: h as i64, u: 0i64, v: s as i64 },
        Vertex { x: h as i64, y: (-h) as i64, z: (-h) as i64, u: s as i64, v: s as i64 },
        Vertex { x: h as i64, y: h as i64, z: (-h) as i64, u: s as i64, v: 0i64 },
        Vertex { x: h as i64, y: h as i64, z: h as i64, u: 0i64, v: 0i64 },
        Vertex { x: (-h) as i64, y: h as i64, z: h as i64, u: 0i64, v: s as i64 },
        Vertex { x: h as i64, y: h as i64, z: h as i64, u: s as i64, v: s as i64 },
        Vertex { x: h as i64, y: h as i64, z: (-h) as i64, u: s as i64, v: 0i64 },
        Vertex { x: (-h) as i64, y: h as i64, z: (-h) as i64, u: 0i64, v: 0i64 },
        Vertex { x: (-h) as i64, y: (-h) as i64, z: (-h) as i64, u: 0i64, v: s as i64 },
        Vertex { x: h as i64, y: (-h) as i64, z: (-h) as i64, u: s as i64, v: s as i64 },
        Vertex { x: h as i64, y: (-h) as i64, z: h as i64, u: s as i64, v: 0i64 },
        Vertex { x: (-h) as i64, y: (-h) as i64, z: h as i64, u: 0i64, v: 0i64 },
    ]
}

/// Vertex `(i, j)` of the latitude-longitude sphere: latitude angle
/// `i pi / segments` from the pole, longitude `j 2 pi / segments`.
pub open spec fn sphere_vertex(radius: int, segments: int, i: int, j: int) -> Vertex {
    let theta = tdiv(i * (PI_FX as int), segments);
    let phi = tdiv(j * (TAU_FX as int), segments);
    Vertex {
        x: fx_mul(fx_mul(radius, sin_fx(theta)), cos_fx(phi)) as i64,
        y: fx_mul(radius, cos_fx(theta)) as i64,
        z: fx_mul(fx_mul(radius, sin_fx(theta)), sin_fx(phi)) as i64,
        u: 0i64,
        v: 0i64,
    }
}

/// The column after `j`, wrapping around the ring.
pub open spec fn next_col(j: int, segments: int) -> int {
    if j + 1 == segments {
        0
    } else {
        j + 1
    }
}

/// The first triangle of cell `(i, j)` of the sphere.
pub open spec fn sphere_tri_a(segments: int, i: int, j: int) -> Triangle {
    Triangle {
        i0: (i * segments + j) as usize,
        i1: ((i + 1) * segments + j) as usize,
        i2: (i * segments + next_col(j, segments)) as usize,
        material_index: 0,
    }
}

/// The second triangle of cell `(i, j)` of the sphere.
pub open spec fn sphere_tri_b(segments: int, i: int, j: int) -> Triangle {
    Triangle {
        i0: (i * segments + next_col(j, segments)) as usize,
        i1: ((i + 1) * segments + j) as usize,
        i2: ((i + 1) * segments + next_col(j, segments)) as usize,
        material_index: 0,
    }
}

/// Each sphere vertex keeps the radius as a coordinate bound.
proof fn lemma_sphere_vertex_bound(radius: int, segments: int, i: int, j: int)
    requires
        0 <= radius <= MESH_LIMIT,
        segments >= 1,
    ensures
        coords_bounded(sphere_vertex(radius, segments, i, j), radius),
{
    let theta = tdiv(i * (PI_FX as int), segments);
    let phi = tdiv(j * (TAU_FX as int), segments);
    lemma_sin_cos_bounded(theta);
    lemma_sin_cos_bounded(phi);
    lemma_fx_mul_bound(radius, sin_fx(theta), radius);
    lemma_fx_mul_bound(radius, cos_fx(theta), radius);
    lemma_fx_mul_bound(fx_mul(radius, sin_fx(theta)), cos_fx(phi), radius);
    lemma_fx_mul_bound(fx_mul(radius, sin_fx(theta)), sin_fx(phi), radius);
}

proof fn lemma_cell_below(seg: int, ii: int, jj: int, i: int)
    requires
        0 <= jj < seg,
        0 <= ii < i,
    ensures
        0 <= ii * seg + jj,
        ii * seg + jj < i * seg,
{
    assert(0 <= ii * seg + jj && ii * seg + jj < i * seg) by (nonlinear_arith)
        requires
            0 <= jj < seg,
            0 <= ii < i,
    ;
}

impl Mesh {
    /// A latitude-longitude sphere centred at a world position, filled
    /// with one flat colour.
    pub fn sphere(
        centre_x: i64,
        centre_y: i64,
        centre_z: i64,
        radius: i64,
        segments: usize,
        colour: &Colour,
    ) -> (m: Mesh)
        requires
            0 <= radius <= MESH_LIMIT,
            1 <= segments <= 1024,
            iabs(centre_x as int) <= MESH_LIMIT,
            iabs(centre_y as int) <= MESH_LIMIT,
            iabs(centre_z as int) <= MESH_LIMIT,
        ensures
            m.well_formed(),
            m.vertices@.len() == (segments + 1) * segments,
            m.triangles@.len() == 2 * (segments * segments),
            forall|i: int, j: int|
                0 <= i <= segments && 0 <= j < segments ==> m.vertices@[i * segments + j]
                    == #[trigger] sphere_vertex(radius as int, segments as int, i, j),
            forall|i: int, j: int|
                0 <= i < segments && 0 <= j < segments ==> m.triangles@[2 * (i * segments + j)]
                    == #[trigger] sphere_tri_a(segments as int, i, j),
            forall|i: int, j: int|
                0 <= i < segments && 0 <= j < segments ==> m.triangles@[2 * (i * segments + j) + 1]
                    == #[trigger] sphere_tri_b(segments as int, i, j),
            m.centre == (Vertex { x: centre_x, y: centre_y, z: centre_z, u: 0i64, v: 0i64 }),
            !m.rotate_around_pivot,
            m.pivot is None,
            m.materials@.len() == 1,
            m.materials@[0].diffuse == *colour,
            m.materials@[0].kd_texture is None,
    {
        let mut m = Mesh::new();
        m.create_sphere(radius, segments);
        m.centre = Vertex { x: centre_x, y: centre_y, z: centre_z, u: 0, v: 0 };
        m.materials = vec![
            Material { name: Vec::new(), diffuse: *colour, kd_texture: None },
        ];
        proof {
            assert forall|k: int| 0 <= k < m.vertices@.len() implies coords_bounded(
                #[trigger] m.vertices@[k],
                MESH_LIMIT as int,
            ) && iabs(m.vertices@[k].u as int) <= MESH_LIMIT && iabs(m.vertices@[k].v as int)
                <= MESH_LIMIT by {
                crate::renderer::lemma_rowcol(segments as int, k);
                let i = k / segments as int;
                let j = k % segments as int;
                assert(i <= segments) by (nonlinear_arith)
                    requires
                        k < (segments + 1) * (segments as int),
                        k == i * segments + j,
                        0 <= j < segments,
                        0 <= i,
                        segments >= 1,
                ;
                assert(m.vertices@[k] == sphere_vertex(radius as int, segments as int, i, j));
                lemma_sphere_vertex_bound(radius as int, segments as int, i, j);
            };
            assert forall|k: int| 0 <= k < m.triangles@.len() implies triangle_in_bounds(
                #[trigger] m.triangles@[k],
                m.vertices@.len() as int,
                m.materials@.len() as int,
            ) by {
                lemma_sphere_triangle_bounds(segments as int, m.triangles@, m.vertices@.len() as int, k);
            };
        }
        m
    }

    /// Fill an empty mesh with the sphere's rings of vertices and the two
    /// triangles of each ring cell.
    fn create_sphere(&mut self, radius: i64, segments: usize)
        requires
            0 <= radius <= MESH_LIMIT,
            1 <= segments <= 1024,
        ensures
            final(self).vertices@.len() == (segments + 1) * segments,
            final(self).triangles@.len() == 2 * (segments * segments),
            forall|i: int, j: int|
                0 <= i <= segments && 0 <= j < segments ==> final(self).vertices@[i * segments + j]
                    == #[trigger] sphere_vertex(radius as int, segments as int, i, j),
            forall|i: int, j: int|
                0 <= i < segments && 0 <= j < segments ==> final(self).triangles@[2 * (i * segments
                    + j)] == #[trigger] sphere_tri_a(segments as int, i, j),
            forall|i: int, j: int|
                0 <= i < segments && 0 <= j < segments ==> final(self).triangles@[2 * (i * segments
                    + j) + 1] == #[trigger] sphere_tri_b(segments as int, i, j),
            final(self).centre == old(self).centre,
            final(self).rotate_around_pivot == old(self).rotate_around_pivot,
            final(self).pivot == old(self).pivot,
            final(self).materials == old(self).materials,
    {
        self.vertices.clear();
        self.triangles.clear();
        let seg64: i64 = segments as i64;
        let mut i: usize = 0;
        while i <= segments
            invariant
                0 <= i <= segments + 1,
                1 <= segments <= 1024,
                seg64 == segments as i64,
                0 <= radius <= MESH_LIMIT,
                self.vertices@.len() == i * segments,
                self.triangles@.len() == 0,
                self.centre == old(self).centre,
                self.rotate_around_pivot == old(self).rotate_around_pivot,
                self.pivot == old(self).pivot,
                self.materials == old(self).materials,
                forall|ii: int, jj: int|
                    0 <= ii < i && 0 <= jj < segments ==> self.vertices@[ii * segments + jj]
                        == #[trigger] sphere_vertex(radius as int, segments as int, ii, jj),
            decreases segments + 1 - i,
        {
            let theta = tdiv64((i as i64) * 205888, seg64);
            let st = fx_sin(theta);
            let ct = fx_cos(theta);
            proof {
                lemma_radius_products(radius as int, st as int, ct as int);
            }
            let rs = fxmul(radius, st);
            let ry = fxmul(radius, ct);
            let mut j: usize = 0;
            while j < segments
                invariant
                    0 <= j <= segments,
                    0 <= i <= segments,
                    1 <= segments <= 1024,
                    seg64 == segments as i64,
                    0 <= radius <= MESH_LIMIT,
                    theta == tdiv((i as int) * (PI_FX as int), segments as int),
                    st == sin_fx(theta as int),
                    ct == cos_fx(theta as int),
                    rs == fx_mul(radius as int, sin_fx(theta as int)),
                    ry == fx_mul(radius as int, cos_fx(theta as int)),
                    iabs(rs as int) <= MESH_LIMIT,
                    self.vertices@.len() == i * segments + j,
                    self.triangles@.len() == 0,
                    self.centre == old(self).centre,
                    self.rotate_around_pivot == old(self).rotate_around_pivot,
                    self.pivot == old(self).pivot,
                    self.materials == old(self).materials,
                    forall|ii: int, jj: int|
                        0 <= ii < i && 0 <= jj < segments ==> self.vertices@[ii * segments + jj]
                            == #[trigger] sphere_vertex(radius as int, segments as int, ii, jj),
                    forall|jj: int|
                        0 <= jj < j ==> self.vertices@[i as int * segments + jj]
                            == #[trigger] sphere_vertex(radius as int, segments as int, i as int, jj),
                decreases segments - j,
            {
                let phi = tdiv64((j as i64) * 411776, seg64);
                let sp = fx_sin(phi);
                let cp = fx_cos(phi);
                proof {
                    lemma_radius_products(rs as int, sp as int, cp as int);
                    lemma_cell_below(segments as int, i as int, j as int, i as int + 1);
                }
                let x = fxmul(rs, cp);
                let z = fxmul(rs, sp);
                self.vertices.push(Vertex { x, y: ry, z, u: 0, v: 0 });
                proof {
                    assert(self.vertices@[i as int * segments + j as int] == sphere_vertex(
                        radius as int,
                        segments as int,
                        i as int,
                        j as int,
                    ));
                    assert forall|ii: int, jj: int|
                        0 <= ii < i && 0 <= jj < segments implies self.vertices@[ii * segments
                        + jj] == #[trigger] sphere_vertex(radius as int, segments as int, ii, jj) by {
                        lemma_cell_below(segments as int, ii, jj, i as int);
                    };
                }
                j = j + 1;
            }
            proof {
                assert((i as int) * segments + segments == (i as int + 1) * segments)
                    by (nonlinear_arith);
            }
            i = i + 1;
        }
        let ring = segments;
        let mut a: usize = 0;
        while a < segments
            invariant
                0 <= a <= segments,
                1 <= segments <= 1024,
                ring == segments,
                self.vertices@.len() == (segments + 1) * segments,
                self.triangles@.len() == 2 * (a * segments),
                self.centre == old(self).centre,
                self.rotate_around_pivot == old(self).rotate_around_pivot,
                self.pivot == old(self).pivot,
                self.materials == old(self).materials,
                0 <= radius <= MESH_LIMIT,
                forall|ii: int, jj: int|
                    0 <= ii <= segments && 0 <= jj < segments ==> self.vertices@[ii * segments
                        + jj] == #[trigger] sphere_vertex(radius as int, segments as int, ii, jj),
                forall|ii: int, jj: int|
                    0 <= ii < a && 0 <= jj < segments ==> self.triangles@[2 * (ii * segments + jj)]
                        == #[trigger] sphere_tri_a(segments as int, ii, jj),
                forall|ii: int, jj: int|
                    0 <= ii < a && 0 <= jj < segments ==> self.triangles@[2 * (ii * segments + jj)
                        + 1] == #[trigger] sphere_tri_b(segments as int, ii, jj),
            decreases segments - a,
        {
            let mut b: usize = 0;
            while b < segments
                invariant
                    0 <= b <= segments,
                    0 <= a < segments,
                    1 <= segments <= 1024,
                    ring == segments,
                    self.vertices@.len() == (segments + 1) * segments,
                    self.triangles@.len() == 2 * (a * segments + b),
                    self.centre == old(self).centre,
                    self.rotate_around_pivot == old(self).rotate_around_pivot,
                    self.pivot == old(self).pivot,
                    self.materials == old(self).materials,
                    0 <= radius <= MESH_LIMIT,
                    forall|ii: int, jj: int|
                        0 <= ii <= segments && 0 <= jj < segments ==> self.vertices@[ii * segments
                            + jj] == #[trigger] sphere_vertex(radius as int, segments as int, ii, jj),
                    forall|ii: int, jj: int|
                        0 <= ii < a && 0 <= jj < segments ==> self.triangles@[2 * (ii * segments
                            + jj)] == #[trigger] sphere_tri_a(segments as int, ii, jj),
                    forall|ii: int, jj: int|
                        0 <= ii < a && 0 <= jj < segments ==> self.triangles@[2 * (ii * segments
                            + jj) + 1] == #[trigger] sphere_tri_b(segments as int, ii, jj),
                    forall|jj: int|
                        0 <= jj < b ==> self.triangles@[2 * (a as int * segments + jj)]
                            == #[trigger] sphere_tri_a(segments as int, a as int, jj),
                    forall|jj: int|
                        0 <= jj < b ==> self.triangles@[2 * (a as int * segments + jj) + 1]
                            == #[trigger] sphere_tri_b(segments as int, a as int, jj),
                decreases segments - b,
            {
                let nj = if b + 1 == segments {
                    0
                } else {
                    b + 1
                };
                proof {
                    assert(a as int * segments + b < segments * segments && (a as int + 1)
                        * segments + b < (segments + 1) * segments && a as int * segments
                        + nj < (segments + 1) * segments && (a as int + 1) * segments + nj < (
                    segments + 1) * segments && segments * segments <= 0x10_0000 && (a as int + 1)
                        * segments + b <= 0x20_0000 && (a as int + 1) * segments + nj <= 0x20_0000
                        && a as int * segments + b <= 0x20_0000 && a as int * segments + nj
                        <= 0x20_0000 && (segments + 1) * segments <= 0x20_0000) by (nonlinear_arith)
                        requires
                            0 <= b < segments,
                            0 <= nj < segments,
                            0 <= a < segments,
                            segments <= 1024,
                    ;
                }
                let va = a * ring + b;
                let vb = a * ring + nj;
                let vc = (a + 1) * ring + b;
                let vd = (a + 1) * ring + nj;
                let ghost tprev = self.triangles@;
                self.triangles.push(Triangle { i0: va, i1: vc, i2: vb, material_index: 0 });
                self.triangles.push(Triangle { i0: vb, i1: vc, i2: vd, material_index: 0 });
                proof {
                    assert(self.triangles@ == tprev.push(
                        Triangle { i0: va, i1: vc, i2: vb, material_index: 0 },
                    ).push(Triangle { i0: vb, i1: vc, i2: vd, material_index: 0 }));
                    assert(self.triangles@[2 * (a as int * segments + b as int)] == sphere_tri_a(
                        segments as int,
                        a as int,
                        b as int,
                    ));
                    assert(self.triangles@[2 * (a as int * segments + b as int) + 1]
                        == sphere_tri_b(segments as int, a as int, b as int));
                    assert forall|ii: int, jj: int|
                        0 <= ii < a && 0 <= jj < segments implies self.triangles@[2 * (ii
                        * segments + jj)] == #[trigger] sphere_tri_a(segments as int, ii, jj) by {
                        lemma_cell_below(segments as int, ii, jj, a as int);
                        assert(2 * (ii * segments + jj) < tprev.len());
                    };
                    assert forall|ii: int, jj: int|
                        0 <= ii < a && 0 <= jj < segments implies self.triangles@[2 * (ii
                        * segments + jj) + 1] == #[trigger] sphere_tri_b(segments as int, ii, jj) by {
                        lemma_cell_below(segments as int, ii, jj, a as int);
                        assert(2 * (ii * segments + jj) + 1 < tprev.len());
                    };
                    assert forall|jj: int| 0 <= jj < b implies self.triangles@[2 * (a as int
                        * segments + jj)] == #[trigger] sphere_tri_a(segments as int, a as int, jj) by {
                        assert(2 * (a as int * segments + jj) < tprev.len());
                    };
                    assert forall|jj: int| 0 <= jj < b implies self.triangles@[2 * (a as int
                        * segments + jj) + 1] == #[trigger] sphere_tri_b(
                        segments as int,
                        a as int,
                        jj,
                    ) by {
                        assert(2 * (a as int * segments + jj) + 1 < tprev.len());
                    };
                }
                b = b + 1;
            }
            proof {
                assert(a as int * segments + segments == (a as int + 1) * segments)
                    by (nonlinear_arith);
            }
            a = a + 1;
        }
    }
}

/// Both products of the radius by a sine or cosine stay within range.
proof fn lemma_radius_products(r: int, s: int, c: int)
    requires
        iabs(r) <= MESH_LIMIT,
        iabs(s) <= SCALE as int,
        iabs(c) <= SCALE as int,
    ensures
        iabs(r * s) <= 0x4000_0000_0000_0000_0000,
        iabs(r * c) <= 0x4000_0000_0000_0000_0000,
        iabs(fx_mul(r, s)) <= iabs(r),
        iabs(fx_mul(r, c)) <= iabs(r),
        iabs(fx_mul(r, s)) <= MESH_LIMIT,
        iabs(fx_mul(r, c)) <= MESH_LIMIT,
{
    assert(iabs(r * s) <= (MESH_LIMIT as int) * (SCALE as int) && iabs(r * c)
        <= (MESH_LIMIT as int) * (SCALE as int)) by (nonlinear_arith)
        requires
            iabs(r) <= MESH_LIMIT,
            iabs(s) <= SCALE as int,
            iabs(c) <= SCALE as int,
    ;
    lemma_fx_mul_bound(r, s, iabs(r));
    lemma_fx_mul_bound(r, c, iabs(r));
}

/// Every triangle of a completed sphere indexes existing vertices.
proof fn lemma_sphere_triangle_bounds(seg: int, tris: Seq<Triangle>, nverts: int, k: int)
    requires
        1 <= seg <= 1024,
        nverts == (seg + 1) * seg,
        tris.len() == 2 * (seg * seg),
        0 <= k < tris.len(),
        forall|ii: int, jj: int|
            0 <= ii < seg && 0 <= jj < seg ==> tris[2 * (ii * seg + jj)] == #[trigger] sphere_tri_a(
                seg,
                ii,
                jj,
            ),
        forall|ii: int, jj: int|
            0 <= ii < seg && 0 <= jj < seg ==> tris[2 * (ii * seg + jj) + 1]
                == #[trigger] sphere_tri_b(seg, ii, jj),
    ensures
        triangle_in_bounds(tris[k], nverts, 1),
{
    let cell = k / 2;
    vstd::arithmetic::div_mod::lemma_fundamental_div_mod(k, 2);
    vstd::arithmetic::div_mod::lemma_mod_division_less_than_divisor(k, 2);
    assert(0 <= cell < seg * seg) by (nonlinear_arith)
        requires
            0 <= k < 2 * (seg * seg),
            k == 2 * cell + k % 2,
            0 <= k % 2 < 2,
    ;
    crate::renderer::lemma_rowcol(seg, cell);
    let ii = cell / seg;
    let jj = cell % seg;
    assert(ii < seg) by (nonlinear_arith)
        requires
            cell < seg * seg,
            cell == ii * seg + jj,
            0 <= jj < seg,
            0 <= ii,
            seg >= 1,
    ;
    assert(k == 2 * (ii * seg + jj) + k % 2);
    assert(0 <= ii * seg + jj && ii * seg + jj + seg + 1 <= nverts && (ii + 1) * seg + jj < nverts
        && ii * seg + next_col(jj, seg) < nverts && (ii + 1) * seg + next_col(jj, seg)
        < nverts && nverts <= 0x20_0000) by (nonlinear_arith)
        requires
            0 <= jj < seg,
            0 <= ii < seg,
            seg <= 1024,
            nverts == (seg + 1) * seg,
            0 <= next_col(jj, seg) < seg,
    ;
    if k % 2 == 0 {
        assert(tris[2 * (ii * seg + jj)] == sphere_tri_a(seg, ii, jj));
        assert(k == 2 * (ii * seg + jj));
    } else {
        assert(tris[2 * (ii * seg + jj) + 1] == sphere_tri_b(seg, ii, jj));
        assert(k == 2 * (ii * seg + jj) + 1);
    }
}

} // verus!

