use softrender::camera::Camera;
use softrender::colour::Colour;
use softrender::loader::{load_wavefront, parse_fixed, parse_material_lib, scan_material_libs, LoadError};
use softrender::material::Material;
use softrender::math::{is_back_facing, rotate_around_pivot, rotate_vertex, rotate_x, to_world};
use softrender::mesh::Mesh;
use softrender::renderer::{Renderer, DEPTH_INF};
use softrender::texture::Texture;
use softrender::vertex::Vertex;

const S: i64 = 65536;

fn white() -> Colour {
    Colour::new(255, 255, 255, 255)
}

#[test]
fn colour_fields() {
    let c = Colour::new(1, 2, 3, 4);
    assert_eq!(c.red, 1);
    assert_eq!(c.green, 2);
    assert_eq!(c.blue, 3);
    assert_eq!(c.alpha, 4);
}

#[test]
fn parse_fixed_values() {
    assert_eq!(parse_fixed(&b"1".to_vec()), Some(65536));
    assert_eq!(parse_fixed(&b"-2.5".to_vec()), Some(-(2 * 65536 + 32768)));
    assert_eq!(parse_fixed(&b"0.5".to_vec()), Some(32768));
    assert_eq!(parse_fixed(&b"+3".to_vec()), Some(3 * 65536));
    assert_eq!(parse_fixed(&b"1.".to_vec()), Some(65536));
    assert_eq!(parse_fixed(&b".5".to_vec()), Some(32768));
    assert_eq!(parse_fixed(&b"".to_vec()), None);
    assert_eq!(parse_fixed(&b".".to_vec()), None);
    assert_eq!(parse_fixed(&b"a".to_vec()), None);
    assert_eq!(parse_fixed(&b"inf".to_vec()), None);
    assert_eq!(parse_fixed(&b"NaN".to_vec()), None);
}

#[test]
fn parse_fixed_exponents() {
    assert_eq!(parse_fixed(&b"1.5e3".to_vec()), Some(1500 * 65536));
    assert_eq!(parse_fixed(&b"2E2".to_vec()), Some(200 * 65536));
    assert_eq!(parse_fixed(&b"25e-1".to_vec()), Some(2 * 65536 + 32768));
    // Tiny values truncate toward zero instead of failing the load.
    assert_eq!(parse_fixed(&b"1e-05".to_vec()), Some(0));
    assert_eq!(parse_fixed(&b"-3.2e-300".to_vec()), Some(0));
    assert_eq!(parse_fixed(&b"0e999999".to_vec()), Some(0));
    // Values past the representable range are rejected, not wrapped.
    assert_eq!(parse_fixed(&b"1e9".to_vec()), None);
    assert_eq!(parse_fixed(&b"1e999999".to_vec()), None);
    assert_eq!(parse_fixed(&b"1e".to_vec()), None);
    assert_eq!(parse_fixed(&b"1e+".to_vec()), None);
    assert_eq!(parse_fixed(&b"e5".to_vec()), None);
}

/// Loader round-trip on a minimal fixture: four positions, two texture
/// coordinates, two triangulated faces that reuse a position with
/// different texture coordinates. Five distinct triples are referenced,
/// so five vertices come out, and all triangle indices are valid.
#[test]
fn loader_round_trip() {
    let text = b"v 0 0 0\nv 1 0 0\nv 0 1 0\nv 1 1 0\nvt 0 0\nvt 1 1\nvn 0 0 1\nf 1/1/1 2/1/1 3/2/1\nf 2/2/1 4/1/1 3/2/1\n".to_vec();
    let mesh = load_wavefront(&text, Vec::new()).unwrap();
    assert_eq!(mesh.vertices.len(), 5);
    assert_eq!(mesh.triangles.len(), 2);
    assert_eq!(mesh.materials.len(), 1);
    for t in &mesh.triangles {
        assert!(t.i0 < mesh.vertices.len());
        assert!(t.i1 < mesh.vertices.len());
        assert!(t.i2 < mesh.vertices.len());
        assert!(t.material_index < mesh.materials.len());
    }
}

/// Loading the same text twice gives identical meshes.
#[test]
fn loader_deterministic() {
    let text = b"v 0 0 0\nv 2 0 0\nv 0 2 0\nvt 0 0\nvn 0 0 1\nf 1/1/1 2/1/1 3/1/1\n".to_vec();
    let m1 = load_wavefront(&text, Vec::new()).unwrap();
    let m2 = load_wavefront(&text, Vec::new()).unwrap();
    assert_eq!(m1.vertices.len(), m2.vertices.len());
    assert_eq!(m1.triangles.len(), m2.triangles.len());
    assert_eq!(m1.materials.len(), m2.materials.len());
    for k in 0..m1.vertices.len() {
        assert_eq!(m1.vertices[k], m2.vertices[k]);
    }
    for k in 0..m1.triangles.len() {
        assert_eq!(m1.triangles[k], m2.triangles[k]);
    }
}

#[test]
fn loader_errors() {
    assert_eq!(
        load_wavefront(&b"v 1 2\n".to_vec(), Vec::new()).unwrap_err(),
        LoadError::MalformedRecord
    );
    assert_eq!(
        load_wavefront(&b"f 1/1/1 2/2/2\n".to_vec(), Vec::new()).unwrap_err(),
        LoadError::UnsupportedPolygon
    );
    assert_eq!(
        load_wavefront(&b"v 0 0 0\nvt 0 0\nvn 0 0 1\nf 1/1/1 2/1/1 1/1/1\n".to_vec(), Vec::new())
            .unwrap_err(),
        LoadError::IndexOutOfRange
    );
    assert_eq!(
        load_wavefront(&b"usemtl nope\n".to_vec(), Vec::new()).unwrap_err(),
        LoadError::MaterialNotFound
    );
    assert_eq!(
        load_wavefront(&b"mtllib a.mtl\n".to_vec(), Vec::new()).unwrap_err(),
        LoadError::IoFailure
    );
}

#[test]
fn material_lib_parse() {
    let text = b"newmtl stone\nKd 1 0 0.5\nd 0.5\nmap_Kd rock.png\n".to_vec();
    let defs = parse_material_lib(&text).unwrap();
    assert_eq!(defs.len(), 1);
    assert_eq!(defs[0].name, b"stone".to_vec());
    assert_eq!(defs[0].diffuse.red, 255);
    assert_eq!(defs[0].diffuse.green, 0);
    assert_eq!(defs[0].diffuse.blue, 127);
    assert_eq!(defs[0].diffuse.alpha, 127);
    assert_eq!(defs[0].texture_path.as_ref().unwrap(), &b"rock.png".to_vec());
    assert_eq!(
        parse_material_lib(&b"Kd 1 1 1\n".to_vec()).unwrap_err(),
        LoadError::MaterialBeforeDeclaration
    );
}

#[test]
fn scan_libs() {
    let names = scan_material_libs(&b"mtllib a.mtl\nv 0 0 0\nmtllib b.mtl\n".to_vec());
    assert_eq!(names.len(), 2);
    assert_eq!(names[0], b"a.mtl".to_vec());
    assert_eq!(names[1], b"b.mtl".to_vec());
}

/// Rotating by the zero angle triple is the identity; rotating a point
/// around a pivot equal to itself returns it, for several angles.
#[test]
fn rotation_identities() {
    let v = Vertex::new(3 * S, -2 * S, 5 * S, 7, 9);
    assert_eq!(rotate_vertex(&v, (0, 0, 0)), v);
    for a in [0i64, 10000, 102944, -300000] {
        assert_eq!(rotate_around_pivot(&v, &v, (a, 2 * a, a)), v);
    }
}

#[test]
fn rotation_quarter_turn() {
    // A quarter turn about x sends +y to +z exactly.
    let v = Vertex::new(0, S, 0, 0, 0);
    let r = rotate_x(&v, 102944);
    assert_eq!(r.x, 0);
    assert_eq!(r.y, 0);
    assert_eq!(r.z, S);
}

#[test]
fn back_face_test() {
    let v0 = Vertex::new(0, 0, S, 0, 0);
    let v1 = Vertex::new(10 * S, 0, S, 0, 0);
    let v2 = Vertex::new(0, 10 * S, S, 0, 0);
    assert!(!is_back_facing(&v0, &v1, &v2));
    assert!(is_back_facing(&v0, &v2, &v1));
}

/// Projection: a point on the axis of the default camera lands at the
/// screen centre; nearer points sit farther from the centre than deeper
/// ones; depths at or beyond the planes are rejected.
#[test]
fn projection_monotonic() {
    let cam = Camera::new(200, 100);
    let centre = cam.project_perspective(&Vertex::new(0, 0, 10 * S, 0, 0)).unwrap();
    assert_eq!(centre.x, 100 * S);
    assert_eq!(centre.y, 50 * S);
    let near_pt = cam.project_perspective(&Vertex::new(2 * S, 0, 5 * S, 0, 0)).unwrap();
    let far_pt = cam.project_perspective(&Vertex::new(2 * S, 0, 50 * S, 0, 0)).unwrap();
    assert!((far_pt.x - 100 * S).abs() <= (near_pt.x - 100 * S).abs());
    assert!(cam.project_perspective(&Vertex::new(0, 0, 0, 0, 0)).is_none());
    assert!(cam.project_perspective(&Vertex::new(0, 0, 1000 * S, 0, 0)).is_none());
    assert!(cam.project_perspective(&Vertex::new(0, 0, 2000 * S, 0, 0)).is_none());
}

/// A counter-clockwise triangle facing the camera writes pixels; the
/// same triangle with its vertex order reversed writes none.
#[test]
fn cull_writes_nothing() {
    let mat = Material { name: Vec::new(), diffuse: Colour::new(10, 20, 30, 255), kd_texture: None };
    let v0 = Vertex::new(2 * S, 2 * S, 10 * S, 0, 0);
    let v1 = Vertex::new(30 * S, 2 * S, 10 * S, 0, 0);
    let v2 = Vertex::new(2 * S, 30 * S, 10 * S, 0, 0);
    let mut r = Renderer::new(40, 40);
    r.fill_triangle(&v0, &v2, &v1, &mat);
    assert!(r.buffer.iter().all(|&b| b == 0));
    assert!(r.depth.iter().all(|&d| d == DEPTH_INF));
    r.fill_triangle(&v0, &v1, &v2, &mat);
    assert!(r.buffer.iter().any(|&b| b != 0));
    let idx = 5 * 40 + 5;
    assert_eq!(r.buffer[idx * 4], 10);
    assert_eq!(r.buffer[idx * 4 + 1], 20);
    assert_eq!(r.buffer[idx * 4 + 2], 30);
}

/// Two overlapping triangles at different depths show the nearer one at
/// the overlap whichever is drawn first.
#[test]
fn depth_test_order_independent() {
    let near_mat =
        Material { name: Vec::new(), diffuse: Colour::new(200, 0, 0, 255), kd_texture: None };
    let far_mat =
        Material { name: Vec::new(), diffuse: Colour::new(0, 200, 0, 255), kd_texture: None };
    let tri = |z: i64| {
        (
            Vertex::new(0, 0, z, 0, 0),
            Vertex::new(30 * S, 0, z, 0, 0),
            Vertex::new(0, 30 * S, z, 0, 0),
        )
    };
    let (n0, n1, n2) = tri(5 * S);
    let (f0, f1, f2) = tri(20 * S);
    let mut a = Renderer::new(32, 32);
    a.fill_triangle(&n0, &n1, &n2, &near_mat);
    a.fill_triangle(&f0, &f1, &f2, &far_mat);
    let mut b = Renderer::new(32, 32);
    b.fill_triangle(&f0, &f1, &f2, &far_mat);
    b.fill_triangle(&n0, &n1, &n2, &near_mat);
    assert_eq!(a.buffer, b.buffer);
    let idx = 3 * 32 + 3;
    assert_eq!(a.buffer[idx * 4], 200);
    assert_eq!(a.buffer[idx * 4 + 1], 0);
}

/// Sampling at the corners of the unit square returns corner pixels for
/// sizes from one by one up to five hundred twelve.
#[test]
fn texture_corner_sampling() {
    for size in [1usize, 2, 7, 512] {
        let t = Texture::debug(size.max(1));
        let c00 = t.sample(0, 0);
        let c11 = t.sample(S, S);
        assert_eq!(c00, t.data[0]);
        assert_eq!(c11, t.data[(t.height - 1) * t.width + (t.width - 1)]);
    }
    let t = Texture::checkerboard(16);
    assert_eq!(t.sample(0, 0), Colour::new(255, 255, 255, 255));
    // Far outside the unit square the lookup clamps instead of failing.
    assert_eq!(t.sample(-5 * S, 9 * S), t.sample(0, S));
}

#[test]
fn checkerboard_pattern() {
    let t = Texture::checkerboard(16);
    assert_eq!(t.width, 16);
    assert_eq!(t.height, 16);
    assert_eq!(t.data.len(), 256);
    assert_eq!(t.data[0], Colour::new(255, 255, 255, 255));
    assert_eq!(t.data[8], Colour::new(0, 0, 0, 255));
}

#[test]
fn debug_gradient() {
    let t = Texture::debug(256);
    assert_eq!(t.data[0], Colour::new(0, 0, 0, 255));
    assert_eq!(t.data[255], Colour::new(255, 0, 0, 255));
    assert_eq!(t.data[255 * 256], Colour::new(0, 255, 0, 255));
}

#[test]
fn cube_and_sphere_shapes() {
    let cube = Mesh::cube(0, 0, 10 * S, 2 * S, &white());
    assert_eq!(cube.vertices.len(), 24);
    assert_eq!(cube.triangles.len(), 12);
    assert_eq!(cube.vertices[0].x, -S);
    assert_eq!(cube.vertices[0].z, S);
    let sphere = Mesh::sphere(0, 0, 0, 3 * S, 8, &white());
    assert_eq!(sphere.vertices.len(), 9 * 8);
    assert_eq!(sphere.triangles.len(), 2 * 64);
    for t in &sphere.triangles {
        assert!(t.i0 < sphere.vertices.len());
        assert!(t.i1 < sphere.vertices.len());
        assert!(t.i2 < sphere.vertices.len());
    }
    // The pole ring sits at radius along y.
    assert_eq!(sphere.vertices[0].y, 3 * S);
}

#[test]
fn default_material_and_shade() {
    let m = Material::default();
    assert_eq!(m.diffuse, Colour::new(255, 255, 255, 255));
    assert!(m.kd_texture.is_none());
    assert_eq!(m.shade(0, 0), Colour::new(255, 255, 255, 255));
    let textured = Material {
        name: b"t".to_vec(),
        diffuse: Colour::new(1, 1, 1, 1),
        kd_texture: Some(Texture::checkerboard(8)),
    };
    assert_eq!(textured.shade(0, 0), Colour::new(255, 255, 255, 255));
}

#[test]
fn clear_resets_buffers() {
    let mat = Material { name: Vec::new(), diffuse: Colour::new(9, 9, 9, 255), kd_texture: None };
    let mut r = Renderer::new(8, 8);
    r.fill_triangle(
        &Vertex::new(0, 0, 5 * S, 0, 0),
        &Vertex::new(8 * S, 0, 5 * S, 0, 0),
        &Vertex::new(0, 8 * S, 5 * S, 0, 0),
        &mat,
    );
    r.clear(Colour::new(1, 2, 3, 4));
    for p in 0..64 {
        assert_eq!(r.buffer[4 * p], 1);
        assert_eq!(r.buffer[4 * p + 1], 2);
        assert_eq!(r.buffer[4 * p + 2], 3);
        assert_eq!(r.buffer[4 * p + 3], 4);
        assert_eq!(r.depth[p], DEPTH_INF);
    }
}

#[test]
fn normalize_direction() {
    let v = Vertex::new(3 * S, 4 * S, 0, 5, 6);
    let n = v.normalize();
    // 3-4-5 triangle: components scale to 3/5 and 4/5 of a unit.
    assert_eq!(n.u, 5);
    assert_eq!(n.v, 6);
    assert!((n.x - 3 * S / 5).abs() <= 1);
    assert!((n.y - 4 * S / 5).abs() <= 1);
    assert_eq!(n.z, 0);
    let z = Vertex::new(0, 0, 0, 1, 2).normalize();
    assert_eq!((z.x, z.y, z.z), (0, 0, 0));
}

/// Model files with exponent and bare-dot number forms load instead of
/// aborting; tiny values truncate toward zero.
#[test]
fn loader_accepts_float_forms() {
    let text = b"v 1e0 .5 2.5e-1\nv -1.e0 0.5E0 1e-12\nv 5. .5 0\nvt 0 0\nvn 0 0 1\nf 1/1/1 2/1/1 3/1/1\n"
        .to_vec();
    let mesh = load_wavefront(&text, Vec::new()).unwrap();
    assert_eq!(mesh.vertices.len(), 3);
    assert_eq!(mesh.triangles.len(), 1);
}

/// The world transform composes spin, placement and the optional pivot
/// rotation exactly as the named stages do.
#[test]
fn world_transform() {
    let v = Vertex::new(S, 0, 0, 3, 4);
    let centre = Vertex::new(10 * S, 0, 0, 0, 0);
    // No rotation: the vertex is just placed at the centre offset.
    let w = to_world(&v, &centre, None, false, (0, 0, 0));
    assert_eq!(w, Vertex::new(11 * S, 0, 0, 3, 4));
    // With a pivot equal to the placed point, the orbit returns it.
    let placed = Vertex::new(11 * S, 0, 0, 3, 4);
    let o = to_world(&v, &centre, Some(&placed), true, (0, 0, 0));
    assert_eq!(o, placed);
    let spun = to_world(&v, &Vertex::new(0, 0, 0, 0, 0), None, false, (102944, 0, 0));
    assert_eq!(spun.x, S);
    assert_eq!(spun.y, 0);
    assert_eq!(spun.z, 0);
}

/// Texture coordinates far outside the unit square no longer skip the
/// triangle: the sampler clamps them.
#[test]
fn wide_uv_still_draws() {
    let mat = Material {
        name: Vec::new(),
        diffuse: Colour::new(0, 0, 0, 0),
        kd_texture: Some(Texture::checkerboard(16)),
    };
    let far_uv = 5000 * S;
    let v0 = Vertex::new(0, 0, 10 * S, far_uv, far_uv);
    let v1 = Vertex::new(20 * S, 0, 10 * S, far_uv, far_uv);
    let v2 = Vertex::new(0, 20 * S, 10 * S, far_uv, far_uv);
    let mut r = Renderer::new(24, 24);
    r.fill_triangle(&v0, &v1, &v2, &mat);
    // Clamped to (1, 1): the last pixel of the checkerboard is white.
    let idx = 2 * 24 + 2;
    assert_eq!(r.buffer[idx * 4], 255);
}
