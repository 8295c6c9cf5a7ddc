//! Rotations of vertices by Euler angles, and the screen-space facing test.
//!
//! Angles are fixed-point radians; each axis rotation is the standard
//! right-handed rotation computed exactly in fixed-point arithmetic, stated
//! by the `*_spec` functions below.

use vstd::prelude::*;

verus! {

use crate::fixed::SCALE;
use crate::fixed::fx_mul;
use crate::fixed::fxmul;
use crate::fixed::iabs;
use crate::fixed::lemma_fx_mul_bound;
use crate::fixed::lemma_tdiv_cancel;
use crate::trig::HALF_PI_FX;
use crate::trig::cos_fx;
use crate::trig::fx_cos;
use crate::trig::fx_sin;
use crate::trig::lemma_sin_cos_bounded;
use crate::trig::lemma_sin_cos_zero;
use crate::trig::sin_fx;
use crate::vertex::Vertex;
use crate::vertex::coords_bounded;

/// An angle a rotation function accepts: room is left to shift it a
/// quarter turn for the cosine.
pub open spec fn angle_ok(a: int) -> bool {
    i64::MIN < a && a <= i64::MAX - HALF_PI_FX
}

/// All three angles of an Euler triple are acceptable.
pub open spec fn angles_ok(r: (i64, i64, i64)) -> bool {
    angle_ok(r.0 as int) && angle_ok(r.1 as int) && angle_ok(r.2 as int)
}

/// Rotation about the x axis: y and z turn, x and the texture coordinate
/// stay.
pub open spec fn rotate_x_spec(v: Vertex, a: int) -> Vertex {
    Vertex {
        x: v.x,
        y: (fx_mul(v.y as int, cos_fx(a)) - fx_mul(v.z as int, sin_fx(a))) as i64,
        z: (fx_mul(v.y as int, sin_fx(a)) + fx_mul(v.z as int, cos_fx(a))) as i64,
        u: v.u,
        v: v.v,
    }
}

/// Rotation about the y axis.
pub open spec fn rotate_y_spec(v: Vertex, a: int) -> Vertex {
    Vertex {
        x: (fx_mul(v.x as int, cos_fx(a)) + fx_mul(v.z as int, sin_fx(a))) as i64,
        y: v.y,
        z: (-fx_mul(v.x as int, sin_fx(a)) + fx_mul(v.z as int, cos_fx(a))) as i64,
        u: v.u,
        v: v.v,
    }
}

/// Rotation about the z axis.
pub open spec fn rotate_z_spec(v: Vertex, a: int) -> Vertex {
    Vertex {
        x: (fx_mul(v.x as int, cos_fx(a)) - fx_mul(v.y as int, sin_fx(a))) as i64,
        y: (fx_mul(v.x as int, sin_fx(a)) + fx_mul(v.y as int, cos_fx(a))) as i64,
        z: v.z,
        u: v.u,
        v: v.v,
    }
}

/// The three axis rotations in fixed order: x, then y, then z.
pub open spec fn rotate_vertex_spec(v: Vertex, rotation: (i64, i64, i64)) -> Vertex {
    rotate_z_spec(
        rotate_y_spec(rotate_x_spec(v, rotation.0 as int), rotation.1 as int),
        rotation.2 as int,
    )
}

/// Translate so the pivot is the origin, rotate, translate back.
pub open spec fn rotate_around_pivot_spec(v: Vertex, pivot: Vertex, rotation: (i64, i64, i64)) -> Vertex {
    let t = Vertex {
        x: (v.x - pivot.x) as i64,
        y: (v.y - pivot.y) as i64,
        z: (v.z - pivot.z) as i64,
        u: v.u,
        v: v.v,
    };
    let r = rotate_vertex_spec(t, rotation);
    Vertex {
        x: (r.x + pivot.x) as i64,
        y: (r.y + pivot.y) as i64,
        z: (r.z + pivot.z) as i64,
        u: r.u,
        v: r.v,
    }
}

/// The z component of the cross product of the two screen-space edge
/// vectors out of `v0`: the triangle's doubled signed area.
pub open spec fn cross_z(v0: Vertex, v1: Vertex, v2: Vertex) -> int {
    (v1.x - v0.x) * (v2.y - v0.y) - (v1.y - v0.y) * (v2.x - v0.x)
}

proof fn lemma_rot_parts(y: int, z: int, a: int)
    requires
        iabs(y) <= 0x1000_0000_0000_0000,
        iabs(z) <= 0x1000_0000_0000_0000,
    ensures
        iabs(y * cos_fx(a)) <= 0x4000_0000_0000_0000_0000,
        iabs(y * sin_fx(a)) <= 0x4000_0000_0000_0000_0000,
        iabs(z * cos_fx(a)) <= 0x4000_0000_0000_0000_0000,
        iabs(z * sin_fx(a)) <= 0x4000_0000_0000_0000_0000,
        iabs(fx_mul(y, cos_fx(a))) <= iabs(y),
        iabs(fx_mul(y, sin_fx(a))) <= iabs(y),
        iabs(fx_mul(z, cos_fx(a))) <= iabs(z),
        iabs(fx_mul(z, sin_fx(a))) <= iabs(z),
{
    lemma_sin_cos_bounded(a);
    assert(iabs(y * cos_fx(a)) <= 0x1000_0000_0000_0000 * (SCALE as int) && iabs(
        y * sin_fx(a),
    ) <= 0x1000_0000_0000_0000 * (SCALE as int) && iabs(z * cos_fx(a))
        <= 0x1000_0000_0000_0000 * (SCALE as int) && iabs(z * sin_fx(a))
        <= 0x1000_0000_0000_0000 * (SCALE as int)) by (nonlinear_arith)
        requires
            iabs(y) <= 0x1000_0000_0000_0000,
            iabs(z) <= 0x1000_0000_0000_0000,
            iabs(cos_fx(a)) <= SCALE as int,
            iabs(sin_fx(a)) <= SCALE as int,
    ;
    lemma_fx_mul_bound(y, cos_fx(a), iabs(y));
    lemma_fx_mul_bound(y, sin_fx(a), iabs(y));
    lemma_fx_mul_bound(z, cos_fx(a), iabs(z));
    lemma_fx_mul_bound(z, sin_fx(a), iabs(z));
}

/// Rotate a vertex about the x axis by a fixed-point angle.
pub fn rotate_x(vertex: &Vertex, angle: i64) -> (r: Vertex)
    requires
        angle_ok(angle as int),
        coords_bounded(*vertex, 0x1000_0000_0000_0000),
    ensures
        r == rotate_x_spec(*vertex, angle as int),
        r.x == vertex.x,
        iabs(r.y as int) <= iabs(vertex.y as int) + iabs(vertex.z as int),
        iabs(r.z as int) <= iabs(vertex.y as int) + iabs(vertex.z as int),
{
    let s = fx_sin(angle);
    let c = fx_cos(angle);
    proof {
        lemma_rot_parts(vertex.y as int, vertex.z as int, angle as int);
    }
    Vertex {
        x: vertex.x,
        y: fxmul(vertex.y, c) - fxmul(vertex.z, s),
        z: fxmul(vertex.y, s) + fxmul(vertex.z, c),
        u: vertex.u,
        v: vertex.v,
    }
}

/// Rotate a vertex about the y axis by a fixed-point angle.
pub fn rotate_y(vertex: &Vertex, angle: i64) -> (r: Vertex)
    requires
        angle_ok(angle as int),
        coords_bounded(*vertex, 0x1000_0000_0000_0000),
    ensures
        r == rotate_y_spec(*vertex, angle as int),
        r.y == vertex.y,
        iabs(r.x as int) <= iabs(vertex.x as int) + iabs(vertex.z as int),
        iabs(r.z as int) <= iabs(vertex.x as int) + iabs(vertex.z as int),
{
    let s = fx_sin(angle);
    let c = fx_cos(angle);
    proof {
        lemma_rot_parts(vertex.x as int, vertex.z as int, angle as int);
    }
    Vertex {
        x: fxmul(vertex.x, c) + fxmul(vertex.z, s),
        y: vertex.y,
        z: -fxmul(vertex.x, s) + fxmul(vertex.z, c),
        u: vertex.u,
        v: vertex.v,
    }
}

/// Rotate a vertex about the z axis by a fixed-point angle.
pub fn rotate_z(vertex: &Vertex, angle: i64) -> (r: Vertex)
    requires
        angle_ok(angle as int),
        coords_bounded(*vertex, 0x1000_0000_0000_0000),
    ensures
        r == rotate_z_spec(*vertex, angle as int),
        r.z == vertex.z,
        iabs(r.x as int) <= iabs(vertex.x as int) + iabs(vertex.y as int),
        iabs(r.y as int) <= iabs(vertex.x as int) + iabs(vertex.y as int),
{
    let s = fx_sin(angle);
    let c = fx_cos(angle);
    proof {
        lemma_rot_parts(vertex.x as int, vertex.y as int, angle as int);
    }
    Vertex {
        x: fxmul(vertex.x, c) - fxmul(vertex.y, s),
        y: fxmul(vertex.x, s) + fxmul(vertex.y, c),
        z: vertex.z,
        u: vertex.u,
        v: vertex.v,
    }
}

/// Rotate a vertex by an Euler angle triple, in fixed order x, y, z.
pub fn rotate_vertex(vertex: &Vertex, rotation: (i64, i64, i64)) -> (r: Vertex)
    requires
        angles_ok(rotation),
        coords_bounded(*vertex, 0x400_0000_0000_0000),
    ensures
        r == rotate_vertex_spec(*vertex, rotation),
        coords_bounded(r, 0x2000_0000_0000_0000),
        r.u == vertex.u,
        r.v == vertex.v,
{
    let r1 = rotate_x(vertex, rotation.0);
    let r2 = rotate_y(&r1, rotation.1);
    let r3 = rotate_z(&r2, rotation.2);
    r3
}

/// Rotate a vertex around a pivot point: translate the pivot to the
/// origin, rotate, translate back. The texture coordinate passes through.
pub fn rotate_around_pivot(vertex: &Vertex, pivot: &Vertex, rotation: (i64, i64, i64)) -> (r: Vertex)
    requires
        angles_ok(rotation),
        coords_bounded(*vertex, 0x100_0000_0000_0000),
        coords_bounded(*pivot, 0x100_0000_0000_0000),
    ensures
        r == rotate_around_pivot_spec(*vertex, *pivot, rotation),
        coords_bounded(r, 0x4000_0000_0000_0000),
{
    let t = Vertex {
        x: vertex.x - pivot.x,
        y: vertex.y - pivot.y,
        z: vertex.z - pivot.z,
        u: vertex.u,
        v: vertex.v,
    };
    let rr = rotate_vertex(&t, rotation);
    Vertex { x: rr.x + pivot.x, y: rr.y + pivot.y, z: rr.z + pivot.z, u: rr.u, v: rr.v }
}

/// Whether the screen-space triangle faces away from the viewer: its
/// doubled signed area `cross_z` is zero or negative, the convention for
/// counter-clockwise front faces.
pub fn is_back_facing(v0: &Vertex, v1: &Vertex, v2: &Vertex) -> (r: bool)
    requires
        coords_bounded(*v0, 0x1000_0000_0000_0000),
        coords_bounded(*v1, 0x1000_0000_0000_0000),
        coords_bounded(*v2, 0x1000_0000_0000_0000),
    ensures
        r == (cross_z(*v0, *v1, *v2) <= 0),
{
    let ax: i128 = (v1.x as i128) - (v0.x as i128);
    let ay: i128 = (v1.y as i128) - (v0.y as i128);
    let bx: i128 = (v2.x as i128) - (v0.x as i128);
    let by: i128 = (v2.y as i128) - (v0.y as i128);
    proof {
        assert(iabs(ax as int * by as int) <= 0x2000_0000_0000_0000_0000_0000_0000_0000
            && iabs(ay as int * bx as int)
            <= 0x2000_0000_0000_0000_0000_0000_0000_0000) by (nonlinear_arith)
            requires
                iabs(ax as int) <= 0x2000_0000_0000_0000,
                iabs(ay as int) <= 0x2000_0000_0000_0000,
                iabs(bx as int) <= 0x2000_0000_0000_0000,
                iabs(by as int) <= 0x2000_0000_0000_0000,
        ;
    }
    let nz: i128 = ax * by - ay * bx;
    nz <= 0
}

/// Rotating by the zero angle triple is the identity.
pub proof fn lemma_rotate_zero_identity(v: Vertex)
    ensures
        rotate_vertex_spec(v, (0i64, 0i64, 0i64)) == v,
{
    lemma_sin_cos_zero();
    lemma_rot_zero_fields(v);
    let r1 = rotate_x_spec(v, 0);
    lemma_rot_zero_fields(r1);
    let r2 = rotate_y_spec(r1, 0);
    lemma_rot_zero_fields(r2);
}

/// With sine `0` and cosine `SCALE`, every axis rotation keeps each field.
proof fn lemma_rot_zero_fields(v: Vertex)
    ensures
        rotate_x_spec(v, 0) == v,
        rotate_y_spec(v, 0) == v,
        rotate_z_spec(v, 0) == v,
{
    lemma_sin_cos_zero();
    lemma_fx_mul_unit(v.x as int);
    lemma_fx_mul_unit(v.y as int);
    lemma_fx_mul_unit(v.z as int);
}

/// `fx_mul` by `SCALE` is the identity and by `0` is `0`.
proof fn lemma_fx_mul_unit(a: int)
    requires
        i64::MIN <= a <= i64::MAX,
    ensures
        fx_mul(a, SCALE as int) == a,
        fx_mul(a, 0) == 0,
{
    reveal(fx_mul);
    lemma_tdiv_cancel(a, SCALE as int);
    assert(a * 0 == 0) by (nonlinear_arith);
    assert(fx_mul(a, 0) == 0) by {
        vstd::arithmetic::div_mod::lemma_div_of0(SCALE as int);
    }
}

/// Rotating a point around a pivot equal to the point itself gives the
/// point back, for any angle triple.
pub proof fn lemma_rotate_pivot_self(v: Vertex, rotation: (i64, i64, i64))
    ensures
        rotate_around_pivot_spec(v, v, rotation) == v,
{
    let t = Vertex { x: 0i64, y: 0i64, z: 0i64, u: v.u, v: v.v };
    lemma_rot_origin_fixed(t, rotation);
}

/// The origin is a fixed point of every axis rotation.
proof fn lemma_rot_origin_fixed(t: Vertex, rotation: (i64, i64, i64))
    requires
        t.x == 0 && t.y == 0 && t.z == 0,
    ensures
        rotate_vertex_spec(t, rotation) == t,
        rotate_x_spec(t, rotation.0 as int) == t,
        rotate_y_spec(t, rotation.1 as int) == t,
        rotate_z_spec(t, rotation.2 as int) == t,
{
    lemma_zero_mul_parts(rotation.0 as int);
    lemma_zero_mul_parts(rotation.1 as int);
    lemma_zero_mul_parts(rotation.2 as int);
}

proof fn lemma_zero_mul_parts(a: int)
    ensures
        fx_mul(0, cos_fx(a)) == 0,
        fx_mul(0, sin_fx(a)) == 0,
{
    reveal(fx_mul);
    assert(0 * cos_fx(a) == 0 && 0 * sin_fx(a) == 0) by (nonlinear_arith);
    vstd::arithmetic::div_mod::lemma_div_of0(SCALE as int);
}


/// The world-space position of a mesh-local vertex: rotate about the
/// mesh origin by the frame's angles, translate by the mesh centre,
/// and, when the mesh revolves, rotate the placed point around the mesh
/// pivot by the same angles.
pub open spec fn place_spec(v: Vertex, centre: Vertex, angles: (i64, i64, i64)) -> Vertex {
    let r = rotate_vertex_spec(v, angles);
    Vertex {
        x: (r.x + centre.x) as i64,
        y: (r.y + centre.y) as i64,
        z: (r.z + centre.z) as i64,
        u: r.u,
        v: r.v,
    }
}

pub open spec fn world_spec(
    v: Vertex,
    centre: Vertex,
    pivot: Option<Vertex>,
    around_pivot: bool,
    angles: (i64, i64, i64),
) -> Vertex {
    let w = place_spec(v, centre, angles);
    if around_pivot && pivot is Some {
        rotate_around_pivot_spec(w, pivot->0, angles)
    } else {
        w
    }
}

/// The three axis rotations applied in order, with the output bounded
/// relative to the input's component magnitudes.
fn spin(v: &Vertex, angles: (i64, i64, i64)) -> (r: Vertex)
    requires
        angles_ok(angles),
        coords_bounded(*v, 0x80_0000_0000_0000),
    ensures
        r == rotate_vertex_spec(*v, angles),
        iabs(r.x as int) <= 4 * (iabs(v.x as int) + iabs(v.y as int) + iabs(v.z as int)),
        iabs(r.y as int) <= 4 * (iabs(v.x as int) + iabs(v.y as int) + iabs(v.z as int)),
        iabs(r.z as int) <= 4 * (iabs(v.x as int) + iabs(v.y as int) + iabs(v.z as int)),
        r.u == v.u,
        r.v == v.v,
{
    let r1 = rotate_x(v, angles.0);
    let r2 = rotate_y(&r1, angles.1);
    let r3 = rotate_z(&r2, angles.2);
    r3
}

/// Rotate about the mesh origin and translate by the centre.
fn place(v: &Vertex, centre: &Vertex, angles: (i64, i64, i64)) -> (r: Vertex)
    requires
        angles_ok(angles),
        coords_bounded(*v, 0x2000_0000_0000),
        coords_bounded(*centre, 0x2000_0000_0000),
    ensures
        r == place_spec(*v, *centre, angles),
        coords_bounded(r, 0x4_0000_0000_0000),
        r.u == v.u,
        r.v == v.v,
{
    let r3 = spin(v, angles);
    Vertex { x: r3.x + centre.x, y: r3.y + centre.y, z: r3.z + centre.z, u: r3.u, v: r3.v }
}

/// Rotate a placed point around the mesh pivot, keeping the result
/// within the world range.
#[verifier::rlimit(100)]
fn orbit(w: &Vertex, p: &Vertex, angles: (i64, i64, i64)) -> (r: Vertex)
    requires
        angles_ok(angles),
        coords_bounded(*w, 0x4_0000_0000_0000),
        coords_bounded(*p, 0x2000_0000_0000),
    ensures
        r == rotate_around_pivot_spec(*w, *p, angles),
        coords_bounded(r, 0x100_0000_0000_0000),
        r.u == w.u,
        r.v == w.v,
{
    let t = Vertex { x: w.x - p.x, y: w.y - p.y, z: w.z - p.z, u: w.u, v: w.v };
    let t3 = spin(&t, angles);
    Vertex { x: t3.x + p.x, y: t3.y + p.y, z: t3.z + p.z, u: t3.u, v: t3.v }
}

/// Produce the world-space vertex of one mesh-local vertex, exactly as
/// `world_spec` composes the named rotations and the translation.
pub fn to_world(
    v: &Vertex,
    centre: &Vertex,
    pivot: Option<&Vertex>,
    around_pivot: bool,
    angles: (i64, i64, i64),
) -> (r: Vertex)
    requires
        angles_ok(angles),
        coords_bounded(*v, 0x2000_0000_0000),
        coords_bounded(*centre, 0x2000_0000_0000),
        match pivot {
            Some(p) => coords_bounded(*p, 0x2000_0000_0000),
            None => true,
        },
        around_pivot ==> pivot is Some,
    ensures
        r == world_spec(
            *v,
            *centre,
            match pivot {
                Some(p) => Some(*p),
                None => None,
            },
            around_pivot,
            angles,
        ),
        coords_bounded(r, 0x100_0000_0000_0000),
        r.u == v.u,
        r.v == v.v,
{
    let w = place(v, centre, angles);
    if around_pivot {
        match pivot {
            Some(p) => orbit(&w, p, angles),
            None => {
                proof {
                    assert(false);
                }
                w
            },
        }
    } else {
        w
    }
}

} // verus!

