//! The camera: view transform and perspective projection.
//!
//! World-space points are translated by the camera position, turned by yaw
//! then pitch, and projected onto the screen. A view-space point is kept
//! only when its depth lies strictly between the near and the far plane;
//! that is the only clipping performed.

use vstd::prelude::*;

verus! {

use crate::fixed::SCALE;
use crate::fixed::fx_div;
use crate::fixed::fx_mul;
use crate::fixed::fxdiv;
use crate::fixed::fxmul;
use crate::fixed::iabs;
use crate::fixed::lemma_fx_mul_bound;
use crate::fixed::lemma_tdiv_nonincreasing;
use crate::fixed::sat64;
use crate::fixed::sat64_of;
use crate::fixed::tdiv;
use crate::fixed::tdiv64;
use crate::fixed::tdiv128;
use crate::math::angles_ok;
use crate::trig::HALF_PI_FX;
use crate::trig::PI_FX;
use crate::trig::cos_fx;
use crate::trig::fx_cos;
use crate::trig::fx_sin;
use crate::trig::lemma_half_sine_pos;
use crate::trig::lemma_sin_cos_bounded;
use crate::trig::sin_fx;
use crate::vertex::Vertex;
use crate::vertex::coords_bounded;

/// The widest screen side the projection accepts.
pub const MAX_SCREEN_SIDE: usize = 16384;

/// How far from the origin camera and world points may sit.
pub const WORLD_LIMIT: i64 = 0x100_0000_0000_0000;

#[derive(Debug)]
pub struct Camera {
    /// Where the camera sits; only the position fields are used.
    pub position: Vertex,
    /// Euler angles (pitch, yaw, roll), fixed-point radians. Roll is
    /// carried but not applied.
    pub rotation: (i64, i64, i64),
    /// Field of view in fixed-point degrees.
    pub fov: i64,
    /// Near plane depth, a positive scalar.
    pub near: i64,
    /// Far plane depth, beyond the near plane.
    pub far: i64,
    pub screen_width: usize,
    pub screen_height: usize,
}

impl Camera {
    pub open spec fn well_formed(self) -> bool {
        &&& 0 < self.near < self.far
        &&& 115 <= self.fov <= 180 * (SCALE as int) - 1
        &&& 1 <= self.screen_width <= MAX_SCREEN_SIDE
        &&& 1 <= self.screen_height <= MAX_SCREEN_SIDE
        &&& coords_bounded(self.position, WORLD_LIMIT as int)
        &&& angles_ok(self.rotation)
    }

    /// Half the field of view, as a fixed-point angle in radians.
    pub open spec fn half_angle(self) -> int {
        tdiv(self.fov * (PI_FX as int), 360 * (SCALE as int))
    }

    /// The focal scalar `1 / tan(fov / 2)`: the cosine of the half angle
    /// divided by its sine.
    pub open spec fn focal(self) -> int {
        fx_div(cos_fx(self.half_angle()), sin_fx(self.half_angle()))
    }

    /// The view transform: translate by the camera position, then rotate
    /// by yaw about the vertical axis and pitch about the horizontal one.
    pub open spec fn view_spec(self, world: Vertex) -> Vertex {
        let dx = world.x - self.position.x;
        let dy = world.y - self.position.y;
        let dz = world.z - self.position.z;
        let siny = sin_fx(self.rotation.1 as int);
        let cosy = cos_fx(self.rotation.1 as int);
        let x1 = fx_mul(dx, cosy) + fx_mul(dz, siny);
        let z1 = -fx_mul(dx, siny) + fx_mul(dz, cosy);
        let sinp = sin_fx(self.rotation.0 as int);
        let cosp = cos_fx(self.rotation.0 as int);
        let y2 = fx_mul(dy, cosp) - fx_mul(z1, sinp);
        let z2 = fx_mul(dy, sinp) + fx_mul(z1, cosp);
        Vertex { x: x1 as i64, y: y2 as i64, z: z2 as i64, u: world.u, v: world.v }
    }

    /// The screen x a view point projects to, before saturation: offset
    /// from the screen centre by `x * focal * height / (2 z)`.
    pub open spec fn screen_x(self, view: Vertex) -> int {
        sat64(
            tdiv(view.x * self.focal() * self.screen_height, 2 * view.z) + self.screen_width
                * 32768,
        )
    }

    /// The screen y a view point projects to: as `screen_x` but flipped,
    /// since screen coordinates grow downward.
    pub open spec fn screen_y(self, view: Vertex) -> int {
        sat64(
            -tdiv(view.y * self.focal() * self.screen_height, 2 * view.z) + self.screen_height
                * 32768,
        )
    }

    /// What `project_perspective` returns: nothing when the view depth
    /// leaves `(near, far)`, else the screen point with the view depth and
    /// the texture coordinate carried through.
    pub open spec fn project_spec(self, world: Vertex) -> Option<Vertex> {
        let v = self.view_spec(world);
        if v.z <= self.near || v.z >= self.far {
            None
        } else {
            Some(
                Vertex {
                    x: self.screen_x(v) as i64,
                    y: self.screen_y(v) as i64,
                    z: v.z,
                    u: v.u,
                    v: v.v,
                },
            )
        }
    }

    /// A camera at the origin looking down the z axis, with a field of
    /// view of ninety degrees, a tenth of a unit of near plane and a
    /// thousand units of far plane.
    pub fn new(screen_width: usize, screen_height: usize) -> (c: Camera)
        requires
            1 <= screen_width <= MAX_SCREEN_SIDE,
            1 <= screen_height <= MAX_SCREEN_SIDE,
        ensures
            c.well_formed(),
            c.position == (Vertex { x: 0i64, y: 0i64, z: 0i64, u: 0i64, v: 0i64 }),
            c.rotation == (0i64, 0i64, 0i64),
            c.fov == 90 * SCALE,
            c.near == 6554,
            c.far == 1000 * SCALE,
            c.screen_width == screen_width,
            c.screen_height == screen_height,
    {
        Camera {
            position: Vertex { x: 0, y: 0, z: 0, u: 0, v: 0 },
            rotation: (0, 0, 0),
            fov: 90 * 65536,
            near: 6554,
            far: 1000 * 65536,
            screen_width,
            screen_height,
        }
    }

    /// Bring a world point into view space.
    pub fn world_to_view(&self, world: &Vertex) -> (r: Vertex)
        requires
            self.well_formed(),
            coords_bounded(*world, WORLD_LIMIT as int),
        ensures
            r == self.view_spec(*world),
            coords_bounded(r, 0x800_0000_0000_0000),
            r.u == world.u,
            r.v == world.v,
    {
        let dx = world.x - self.position.x;
        let dy = world.y - self.position.y;
        let dz = world.z - self.position.z;
        let (x1, z1) = turn_fwd(dx, dz, self.rotation.1);
        let (y2, z2) = turn_rev(dy, z1, self.rotation.0);
        Vertex { x: x1, y: y2, z: z2, u: world.u, v: world.v }
    }

    /// Compute the focal scalar from the field of view.
    fn focal_of(&self) -> (f: i64)
        requires
            self.well_formed(),
        ensures
            f == self.focal(),
            0 <= f <= 0x2_0000_0000,
    {
        let h = tdiv64(self.fov * 205888, 360 * 65536);
        proof {
            lemma_half_angle_range(self.fov as int);
            vstd::arithmetic::div_mod::lemma_small_mod(h as nat, crate::trig::TAU_FX as nat);
            assert(sin_fx(h as int) == crate::trig::half_sine(h as int));
            lemma_half_sine_pos(h as int);
            vstd::arithmetic::div_mod::lemma_small_mod(
                (h + HALF_PI_FX) as nat,
                crate::trig::TAU_FX as nat,
            );
            assert(cos_fx(h as int) == crate::trig::half_sine(h as int + HALF_PI_FX as int));
            crate::trig::lemma_half_sine_bounds(h as int + HALF_PI_FX as int);
            lemma_tdiv_nonincreasing(cos_fx(h as int) * (SCALE as int), sin_fx(h as int));
            vstd::arithmetic::div_mod::lemma_div_pos_is_pos(
                cos_fx(h as int) * (SCALE as int),
                sin_fx(h as int),
            );
            assert(0 <= cos_fx(h as int) * (SCALE as int) <= 0x1_0000_0000) by (nonlinear_arith)
                requires
                    0 <= cos_fx(h as int) <= SCALE as int,
            ;
        }
        let s = fx_sin(h);
        let c = fx_cos(h);
        fxdiv(c, s)
    }

    /// Project a world point to the screen, or nothing when its view
    /// depth is out of range: this is the only clipping performed.
    pub fn project_perspective(&self, world: &Vertex) -> (r: Option<Vertex>)
        requires
            self.well_formed(),
            coords_bounded(*world, WORLD_LIMIT as int),
        ensures
            r == self.project_spec(*world),
            r is None <==> (self.view_spec(*world).z <= self.near || self.view_spec(
                *world,
            ).z >= self.far),
    {
        let v = self.world_to_view(world);
        if v.z <= self.near || v.z >= self.far {
            return None;
        }
        let f = self.focal_of();
        proof {
            lemma_project_num(v.x as int, f as int, self.screen_height as int);
            lemma_project_num(v.y as int, f as int, self.screen_height as int);
        }
        let num_x: i128 = (v.x as i128) * (f as i128) * (self.screen_height as i128);
        let num_y: i128 = (v.y as i128) * (f as i128) * (self.screen_height as i128);
        let den: i128 = 2 * (v.z as i128);
        let tx: i128 = tdiv128(num_x, den);
        let ty: i128 = tdiv128(num_y, den);
        let cx: i128 = (self.screen_width as i128) * 32768;
        let cy: i128 = (self.screen_height as i128) * 32768;
        let sx = sat64_of(tx + cx);
        let sy = sat64_of(-ty + cy);
        Some(Vertex { x: sx, y: sy, z: v.z, u: v.u, v: v.v })
    }
}

/// The half angle of an accepted field of view lies strictly between
/// zero and a quarter turn: the field of view must give it at least one
/// fixed-point step, and must stay under a half turn.
proof fn lemma_half_angle_range(fov: int)
    requires
        115 <= fov <= 180 * (SCALE as int) - 1,
    ensures
        1 <= tdiv(fov * (PI_FX as int), 360 * (SCALE as int)),
        tdiv(fov * (PI_FX as int), 360 * (SCALE as int)) <= HALF_PI_FX as int - 1,
{
    let num = fov * (PI_FX as int);
    assert(115 * 205888 <= num && num <= (180 * 65536 - 1) * 205888int) by (nonlinear_arith)
        requires
            115 <= fov <= 180 * 65536 - 1,
            num == fov * 205888,
    ;
    assert(num >= 360 * (SCALE as int));
    vstd::arithmetic::div_mod::lemma_div_is_ordered(
        360 * (SCALE as int),
        num,
        360 * (SCALE as int),
    );
    vstd::arithmetic::div_mod::lemma_div_by_self(360 * (SCALE as int));
    assert((180 * 65536 - 1) * 205888int < 102944 * (360 * 65536int)) by (nonlinear_arith);
    vstd::arithmetic::div_mod::lemma_multiply_divide_lt(
        num,
        360 * (SCALE as int),
        HALF_PI_FX as int,
    );
}

/// One plane of the yaw turn: `(cos a + sin b, -sin a + cos b)`.
fn turn_fwd(a: i64, b: i64, angle: i64) -> (r: (i64, i64))
    requires
        crate::math::angle_ok(angle as int),
        iabs(a as int) <= 0x1000_0000_0000_0000,
        iabs(b as int) <= 0x1000_0000_0000_0000,
    ensures
        r.0 == fx_mul(a as int, cos_fx(angle as int)) + fx_mul(b as int, sin_fx(angle as int)),
        r.1 == -fx_mul(a as int, sin_fx(angle as int)) + fx_mul(b as int, cos_fx(angle as int)),
        iabs(r.0 as int) <= iabs(a as int) + iabs(b as int),
        iabs(r.1 as int) <= iabs(a as int) + iabs(b as int),
{
    let s = fx_sin(angle);
    let c = fx_cos(angle);
    proof {
        lemma_view_parts(a as int, b as int, angle as int);
    }
    (fxmul(a, c) + fxmul(b, s), -fxmul(a, s) + fxmul(b, c))
}

/// One plane of the pitch turn: `(cos a - sin b, sin a + cos b)`.
fn turn_rev(a: i64, b: i64, angle: i64) -> (r: (i64, i64))
    requires
        crate::math::angle_ok(angle as int),
        iabs(a as int) <= 0x1000_0000_0000_0000,
        iabs(b as int) <= 0x1000_0000_0000_0000,
    ensures
        r.0 == fx_mul(a as int, cos_fx(angle as int)) - fx_mul(b as int, sin_fx(angle as int)),
        r.1 == fx_mul(a as int, sin_fx(angle as int)) + fx_mul(b as int, cos_fx(angle as int)),
        iabs(r.0 as int) <= iabs(a as int) + iabs(b as int),
        iabs(r.1 as int) <= iabs(a as int) + iabs(b as int),
{
    let s = fx_sin(angle);
    let c = fx_cos(angle);
    proof {
        lemma_view_parts(a as int, b as int, angle as int);
    }
    (fxmul(a, c) - fxmul(b, s), fxmul(a, s) + fxmul(b, c))
}

/// Both fixed-point products in one axis of the view rotation stay inside
/// the range `fxmul` accepts, and their results keep the input magnitude.
proof fn lemma_view_parts(a: int, b: int, angle: int)
    requires
        iabs(a) <= 0x1000_0000_0000_0000,
        iabs(b) <= 0x1000_0000_0000_0000,
    ensures
        iabs(a * cos_fx(angle)) <= 0x4000_0000_0000_0000_0000,
        iabs(a * sin_fx(angle)) <= 0x4000_0000_0000_0000_0000,
        iabs(b * cos_fx(angle)) <= 0x4000_0000_0000_0000_0000,
        iabs(b * sin_fx(angle)) <= 0x4000_0000_0000_0000_0000,
        iabs(fx_mul(a, cos_fx(angle))) <= iabs(a),
        iabs(fx_mul(a, sin_fx(angle))) <= iabs(a),
        iabs(fx_mul(b, cos_fx(angle))) <= iabs(b),
        iabs(fx_mul(b, sin_fx(angle))) <= iabs(b),
{
    lemma_sin_cos_bounded(angle);
    assert(iabs(a * cos_fx(angle)) <= 0x1000_0000_0000_0000 * (SCALE as int) && iabs(
        a * sin_fx(angle),
    ) <= 0x1000_0000_0000_0000 * (SCALE as int) && iabs(b * cos_fx(angle))
        <= 0x1000_0000_0000_0000 * (SCALE as int) && iabs(b * sin_fx(angle))
        <= 0x1000_0000_0000_0000 * (SCALE as int)) by (nonlinear_arith)
        requires
            iabs(a) <= 0x1000_0000_0000_0000,
            iabs(b) <= 0x1000_0000_0000_0000,
            iabs(cos_fx(angle)) <= SCALE as int,
            iabs(sin_fx(angle)) <= SCALE as int,
    ;
    lemma_fx_mul_bound(a, cos_fx(angle), iabs(a));
    lemma_fx_mul_bound(a, sin_fx(angle), iabs(a));
    lemma_fx_mul_bound(b, cos_fx(angle), iabs(b));
    lemma_fx_mul_bound(b, sin_fx(angle), iabs(b));
}

/// For a camera at the origin with no rotation, the view transform is the
/// identity.
pub proof fn lemma_view_identity(cam: Camera, w: Vertex)
    requires
        cam.position.x == 0 && cam.position.y == 0 && cam.position.z == 0,
        cam.rotation == (0i64, 0i64, 0i64),
    ensures
        cam.view_spec(w) == w,
{
    crate::trig::lemma_sin_cos_zero();
    lemma_fx_unit(w.x as int);
    lemma_fx_unit(w.y as int);
    lemma_fx_unit(w.z as int);
}

proof fn lemma_fx_unit(a: int)
    requires
        i64::MIN <= a <= i64::MAX,
    ensures
        fx_mul(a, SCALE as int) == a,
        fx_mul(a, 0) == 0,
{
    reveal(fx_mul);
    crate::fixed::lemma_tdiv_cancel(a, SCALE as int);
    assert(a * 0 == 0) by (nonlinear_arith);
    vstd::arithmetic::div_mod::lemma_div_of0(SCALE as int);
}

/// Dividing a fixed offset by a deeper depth, then saturating and adding
/// the screen centre, never moves the screen point away from the centre.
proof fn lemma_toward_centre(a: int, z1: int, z2: int, c: int)
    requires
        0 < z1 <= z2,
        0 <= c <= i64::MAX,
    ensures
        iabs(sat64(tdiv(a, 2 * z2) + c) - c) <= iabs(sat64(tdiv(a, 2 * z1) + c) - c),
{
    crate::fixed::lemma_tdiv_denominator(a, 2 * z1, 2 * z2);
    crate::fixed::lemma_tdiv_sign(a, 2 * z1);
    crate::fixed::lemma_tdiv_sign(a, 2 * z2);
}

/// Projection sends a point straight ahead of an unrotated camera at the
/// origin toward the screen centre as its depth grows, and rejects depths
/// outside the open interval between the near and the far plane.
pub proof fn lemma_projection_monotonic(cam: Camera, w1: Vertex, w2: Vertex)
    requires
        cam.well_formed(),
        cam.position.x == 0 && cam.position.y == 0 && cam.position.z == 0,
        cam.rotation == (0i64, 0i64, 0i64),
        w1.x == w2.x,
        w1.y == w2.y,
        cam.near < w1.z,
        w1.z <= w2.z,
        w2.z < cam.far,
    ensures
        cam.project_spec(w1) is Some,
        cam.project_spec(w2) is Some,
        iabs(cam.screen_x(w2) - cam.screen_width * 32768) <= iabs(
            cam.screen_x(w1) - cam.screen_width * 32768,
        ),
        iabs(cam.screen_y(w2) - cam.screen_height * 32768) <= iabs(
            cam.screen_y(w1) - cam.screen_height * 32768,
        ),
{
    lemma_view_identity(cam, w1);
    lemma_view_identity(cam, w2);
    let a = w1.x * cam.focal() * cam.screen_height;
    lemma_toward_centre(a, w1.z as int, w2.z as int, cam.screen_width * 32768);
    let b = w1.y * cam.focal() * cam.screen_height;
    crate::fixed::lemma_tdiv_neg(b, 2 * w1.z as int);
    crate::fixed::lemma_tdiv_neg(b, 2 * w2.z as int);
    lemma_toward_centre(-b, w1.z as int, w2.z as int, cam.screen_height * 32768);
}

/// A point whose view depth does not lie strictly between the near and
/// far planes of an unrotated camera at the origin projects to nothing.
pub proof fn lemma_projection_rejects(cam: Camera, w: Vertex)
    requires
        cam.position.x == 0 && cam.position.y == 0 && cam.position.z == 0,
        cam.rotation == (0i64, 0i64, 0i64),
        w.z <= cam.near || w.z >= cam.far,
    ensures
        cam.project_spec(w) is None,
{
    lemma_view_identity(cam, w);
}

/// The projection numerator stays well inside the 128-bit range.
proof fn lemma_project_num(x: int, f: int, h: int)
    requires
        iabs(x) <= 0x800_0000_0000_0000,
        0 <= f <= 0x2_0000_0000,
        0 <= h <= MAX_SCREEN_SIDE as int,
    ensures
        iabs(x * f) <= 0x4_0000_0000_0000_0000_0000_0000,
        iabs(x * f * h) <= 0x1_0000_0000_0000_0000_0000_0000_0000,
{
    assert(iabs(x * f) <= 0x4_0000_0000_0000_0000_0000_0000 && iabs(x * f * h)
        <= 0x1_0000_0000_0000_0000_0000_0000_0000) by (nonlinear_arith)
        requires
            iabs(x) <= 0x800_0000_0000_0000,
            0 <= f <= 0x2_0000_0000,
            0 <= h <= MAX_SCREEN_SIDE as int,
    ;
}

} // verus!
