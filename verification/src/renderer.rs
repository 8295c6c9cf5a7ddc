//! The rasterizer: triangle scan conversion over a colour buffer and a
//! depth buffer.
//!
//! Screen points carry fixed-point pixel coordinates, a positive view
//! depth, and a texture coordinate. A triangle is culled when it faces
//! away or is degenerate; otherwise every pixel of its clamped bounding
//! box whose edge functions agree in sign with the triangle's area is
//! depth-tested and, when strictly nearer than what the depth buffer
//! holds, shaded through the material and written.
//!
//! Texture coordinates and depth are interpolated perspective-correctly:
//! the exact integer forms below interpolate `u / z` and `1 / z` linearly
//! in screen space and divide the results, with no reciprocal rounding.

use vstd::prelude::*;

verus! {

use crate::colour::Colour;
use crate::fixed::SCALE;
use crate::fixed::iabs;
use crate::fixed::tdiv;
use crate::fixed::tdiv64;
use crate::fixed::tdiv128;
use crate::material::Material;
use crate::math::cross_z;
use crate::math::is_back_facing;
use crate::vertex::Vertex;

/// The depth every pixel starts a frame at: farther than any depth the
/// rasterizer accepts, standing for infinity.
pub const DEPTH_INF: i64 = 0x7fff_ffff_ffff_ffff;

/// The widest buffer side the rasterizer accepts.
pub const MAX_SIDE: usize = 16384;

/// A screen point the rasterizer will draw: pixel coordinates within
/// sixty-five thousand pixels of the origin, a positive depth of at most
/// sixteen thousand units, and a texture coordinate within eight
/// thousand units of the origin. These are the machine limits of the
/// exact 128-bit interpolation; a triangle outside them is skipped.
pub open spec fn point_ok(v: Vertex) -> bool {
    &&& iabs(v.x as int) <= 0x1_0000_0000
    &&& iabs(v.y as int) <= 0x1_0000_0000
    &&& 0 < v.z <= 0x4000_0000
    &&& iabs(v.u as int) <= 0x2000_0000
    &&& iabs(v.v as int) <= 0x2000_0000
}

/// The pixel column of a screen point: its x coordinate with the
/// fixed-point scale divided out.
pub open spec fn px_x(v: Vertex) -> int {
    tdiv(v.x as int, SCALE as int)
}

/// The pixel row of a screen point.
pub open spec fn px_y(v: Vertex) -> int {
    tdiv(v.y as int, SCALE as int)
}

/// The oriented edge function: positive on one side of the line from `a`
/// to `b`, negative on the other, zero on it.
pub open spec fn edge_f(ax: int, ay: int, bx: int, by: int, px: int, py: int) -> int {
    (px - ax) * (by - ay) - (py - ay) * (bx - ax)
}

/// The triangle's doubled signed area in pixel coordinates.
pub open spec fn tri_area(p0: Vertex, p1: Vertex, p2: Vertex) -> int {
    edge_f(px_x(p0), px_y(p0), px_x(p1), px_y(p1), px_x(p2), px_y(p2))
}

pub open spec fn pix_w0(p0: Vertex, p1: Vertex, p2: Vertex, x: int, y: int) -> int {
    edge_f(px_x(p1), px_y(p1), px_x(p2), px_y(p2), x, y)
}

pub open spec fn pix_w1(p0: Vertex, p1: Vertex, p2: Vertex, x: int, y: int) -> int {
    edge_f(px_x(p2), px_y(p2), px_x(p0), px_y(p0), x, y)
}

pub open spec fn pix_w2(p0: Vertex, p1: Vertex, p2: Vertex, x: int, y: int) -> int {
    edge_f(px_x(p0), px_y(p0), px_x(p1), px_y(p1), x, y)
}

pub open spec fn imin3(a: int, b: int, c: int) -> int {
    if a <= b && a <= c {
        a
    } else if b <= c {
        b
    } else {
        c
    }
}

pub open spec fn imax3(a: int, b: int, c: int) -> int {
    if a >= b && a >= c {
        a
    } else if b >= c {
        b
    } else {
        c
    }
}

pub open spec fn iclamp(v: int, lo: int, hi: int) -> int {
    if v < lo {
        lo
    } else if v > hi {
        hi
    } else {
        v
    }
}

/// The pixel lies inside the triangle's bounding box clamped to a
/// `width` by `height` screen.
pub open spec fn in_bbox(
    p0: Vertex,
    p1: Vertex,
    p2: Vertex,
    width: int,
    height: int,
    x: int,
    y: int,
) -> bool {
    &&& iclamp(imin3(px_x(p0), px_x(p1), px_x(p2)), 0, width - 1) <= x
    &&& x <= iclamp(imax3(px_x(p0), px_x(p1), px_x(p2)), 0, width - 1)
    &&& iclamp(imin3(px_y(p0), px_y(p1), px_y(p2)), 0, height - 1) <= y
    &&& y <= iclamp(imax3(px_y(p0), px_y(p1), px_y(p2)), 0, height - 1)
}

/// The three edge functions at the pixel agree in sign.
pub open spec fn pix_inside(p0: Vertex, p1: Vertex, p2: Vertex, x: int, y: int) -> bool {
    let w0 = pix_w0(p0, p1, p2, x, y);
    let w1 = pix_w1(p0, p1, p2, x, y);
    let w2 = pix_w2(p0, p1, p2, x, y);
    (w0 >= 0 && w1 >= 0 && w2 >= 0) || (w0 <= 0 && w1 <= 0 && w2 <= 0)
}

/// The rasterizer writes the pixel (subject to the depth test) when it is
/// in the clamped bounding box and inside the triangle.
pub open spec fn pix_covered(
    p0: Vertex,
    p1: Vertex,
    p2: Vertex,
    width: int,
    height: int,
    x: int,
    y: int,
) -> bool {
    in_bbox(p0, p1, p2, width, height, x, y) && pix_inside(p0, p1, p2, x, y)
}

/// The barycentric weight of `p0` at the pixel, negated as a pair with
/// the area when the area is negative, so that all weights are counted
/// positively.
pub open spec fn nw0(p0: Vertex, p1: Vertex, p2: Vertex, x: int, y: int) -> int {
    if tri_area(p0, p1, p2) > 0 {
        pix_w0(p0, p1, p2, x, y)
    } else {
        -pix_w0(p0, p1, p2, x, y)
    }
}

pub open spec fn nw1(p0: Vertex, p1: Vertex, p2: Vertex, x: int, y: int) -> int {
    if tri_area(p0, p1, p2) > 0 {
        pix_w1(p0, p1, p2, x, y)
    } else {
        -pix_w1(p0, p1, p2, x, y)
    }
}

pub open spec fn nw2(p0: Vertex, p1: Vertex, p2: Vertex, x: int, y: int) -> int {
    if tri_area(p0, p1, p2) > 0 {
        pix_w2(p0, p1, p2, x, y)
    } else {
        -pix_w2(p0, p1, p2, x, y)
    }
}

/// The common denominator of the perspective-correct interpolation: the
/// inverse depth interpolated across the triangle, times the product of
/// the three depths and the doubled area.
pub open spec fn pix_den(p0: Vertex, p1: Vertex, p2: Vertex, x: int, y: int) -> int {
    nw0(p0, p1, p2, x, y) * (p1.z * p2.z) + nw1(p0, p1, p2, x, y) * (p0.z * p2.z) + nw2(
        p0,
        p1,
        p2,
        x,
        y,
    ) * (p0.z * p1.z)
}

/// The perspective-correct depth at the pixel.
pub open spec fn pix_depth(p0: Vertex, p1: Vertex, p2: Vertex, x: int, y: int) -> int {
    tdiv(
        (nw0(p0, p1, p2, x, y) + nw1(p0, p1, p2, x, y) + nw2(p0, p1, p2, x, y)) * (p0.z * p1.z
            * p2.z),
        pix_den(p0, p1, p2, x, y),
    )
}

/// The perspective-correct `u` texture coordinate at the pixel.
pub open spec fn pix_u(p0: Vertex, p1: Vertex, p2: Vertex, x: int, y: int) -> int {
    tdiv(
        nw0(p0, p1, p2, x, y) * p0.u * (p1.z * p2.z) + nw1(p0, p1, p2, x, y) * p1.u * (p0.z
            * p2.z) + nw2(p0, p1, p2, x, y) * p2.u * (p0.z * p1.z),
        pix_den(p0, p1, p2, x, y),
    )
}

/// The perspective-correct `v` texture coordinate at the pixel.
pub open spec fn pix_v(p0: Vertex, p1: Vertex, p2: Vertex, x: int, y: int) -> int {
    tdiv(
        nw0(p0, p1, p2, x, y) * p0.v * (p1.z * p2.z) + nw1(p0, p1, p2, x, y) * p1.v * (p0.z
            * p2.z) + nw2(p0, p1, p2, x, y) * p2.v * (p0.z * p1.z),
        pix_den(p0, p1, p2, x, y),
    )
}

/// The colour the material shades the pixel with.
pub open spec fn pix_colour(
    p0: Vertex,
    p1: Vertex,
    p2: Vertex,
    m: Material,
    x: int,
    y: int,
) -> Colour {
    m.shade_spec(pix_u(p0, p1, p2, x, y), pix_v(p0, p1, p2, x, y))
}

/// The rasterizer draws nothing at all for this triangle: a screen point
/// is out of the accepted range, the triangle faces away, or it is
/// degenerate.
pub open spec fn tri_skipped(p0: Vertex, p1: Vertex, p2: Vertex) -> bool {
    ||| !point_ok(p0)
    ||| !point_ok(p1)
    ||| !point_ok(p2)
    ||| cross_z(p0, p1, p2) <= 0
    ||| tri_area(p0, p1, p2) == 0
}

/// Pixel `i` of the buffer is written by this triangle: it is covered and
/// strictly nearer than the depth the buffer held.
pub open spec fn pix_drawn(
    p0: Vertex,
    p1: Vertex,
    p2: Vertex,
    width: int,
    height: int,
    old_depth: Seq<i64>,
    i: int,
) -> bool {
    pix_covered(p0, p1, p2, width, height, i % width, i / width) && pix_depth(
        p0,
        p1,
        p2,
        i % width,
        i / width,
    ) < old_depth[i]
}

/// The depth buffer entry for pixel `i` after the triangle is drawn.
pub open spec fn depth_after(
    p0: Vertex,
    p1: Vertex,
    p2: Vertex,
    width: int,
    height: int,
    old_depth: Seq<i64>,
    i: int,
) -> i64 {
    if pix_drawn(p0, p1, p2, width, height, old_depth, i) {
        pix_depth(p0, p1, p2, i % width, i / width) as i64
    } else {
        old_depth[i]
    }
}

/// Byte `j` of the colour buffer after the triangle is drawn.
pub open spec fn byte_after(
    p0: Vertex,
    p1: Vertex,
    p2: Vertex,
    m: Material,
    width: int,
    height: int,
    old_depth: Seq<i64>,
    old_buffer: Seq<u8>,
    j: int,
) -> u8 {
    let i = j / 4;
    if pix_drawn(p0, p1, p2, width, height, old_depth, i) {
        let c = pix_colour(p0, p1, p2, m, i % width, i / width);
        if j % 4 == 0 {
            c.red
        } else if j % 4 == 1 {
            c.green
        } else if j % 4 == 2 {
            c.blue
        } else {
            c.alpha
        }
    } else {
        old_buffer[j]
    }
}

#[derive(Debug)]
pub struct Renderer {
    pub width: usize,
    pub height: usize,
    pub buffer: Vec<u8>,
    pub depth: Vec<i64>,
}

impl Renderer {
    /// The buffers hold exactly four colour bytes and one depth per
    /// pixel, for a bounded screen.
    pub open spec fn well_formed(self) -> bool {
        &&& self.width <= MAX_SIDE
        &&& self.height <= MAX_SIDE
        &&& self.buffer@.len() == self.width * self.height * 4
        &&& self.depth@.len() == self.width * self.height
    }

    /// A renderer with every pixel black and transparent and every depth
    /// at infinity.
    pub fn new(width: usize, height: usize) -> (r: Renderer)
        requires
            width <= MAX_SIDE,
            height <= MAX_SIDE,
        ensures
            r.well_formed(),
            r.width == width,
            r.height == height,
            forall|j: int| 0 <= j < r.buffer@.len() ==> r.buffer@[j] == 0u8,
            forall|i: int| 0 <= i < r.depth@.len() ==> r.depth@[i] == DEPTH_INF,
    {
        proof {
            assert(width * height <= MAX_SIDE * MAX_SIDE && width * height * 4 <= MAX_SIDE
                * MAX_SIDE * 4) by (nonlinear_arith)
                requires
                    width <= MAX_SIDE,
                    height <= MAX_SIDE,
            ;
        }
        let n: usize = width * height;
        let buffer: Vec<u8> = vec![0u8; 4 * n];
        let depth: Vec<i64> = vec![DEPTH_INF; n];
        Renderer { width, height, buffer, depth }
    }

    /// The byte a cleared buffer holds at offset `j`: the colour's
    /// channels, repeating every four bytes.
    pub open spec fn clear_byte(colour: Colour, j: int) -> u8 {
        if j % 4 == 0 {
            colour.red
        } else if j % 4 == 1 {
            colour.green
        } else if j % 4 == 2 {
            colour.blue
        } else {
            colour.alpha
        }
    }

    /// Overwrite every pixel with one colour and reset every depth to
    /// infinity.
    pub fn clear(&mut self, colour: Colour)
        requires
            old(self).well_formed(),
        ensures
            final(self).well_formed(),
            final(self).width == old(self).width,
            final(self).height == old(self).height,
            forall|i: int|
                0 <= i < final(self).depth@.len() ==> final(self).depth@[i] == DEPTH_INF,
            forall|j: int|
                0 <= j < final(self).buffer@.len() ==> final(self).buffer@[j] == Renderer::clear_byte(
                    colour,
                    j,
                ),
    {
        proof {
            let w = old(self).width;
            let h = old(self).height;
            assert(w * h <= MAX_SIDE * MAX_SIDE) by (nonlinear_arith)
                requires
                    w <= MAX_SIDE,
                    h <= MAX_SIDE,
            ;
        }
        let n: usize = self.width * self.height;
        let mut buffer: Vec<u8> = Vec::new();
        let mut i: usize = 0;
        while i < n
            invariant
                i <= n,
                buffer@.len() == 4 * i,
                forall|j: int| 0 <= j < 4 * i ==> buffer@[j] == Renderer::clear_byte(colour, j),
            decreases n - i,
        {
            buffer.push(colour.red);
            buffer.push(colour.green);
            buffer.push(colour.blue);
            buffer.push(colour.alpha);
            i = i + 1;
        }
        let mut depth: Vec<i64> = Vec::new();
        let mut k: usize = 0;
        while k < n
            invariant
                k <= n,
                depth@.len() == k,
                forall|j: int| 0 <= j < k ==> depth@[j] == DEPTH_INF,
            decreases n - k,
        {
            depth.push(DEPTH_INF);
            k = k + 1;
        }
        self.buffer = buffer;
        self.depth = depth;
    }

    /// Write one pixel if it is on screen and strictly nearer than what
    /// the depth buffer holds; otherwise change nothing.
    pub fn put_pixel_depth(&mut self, x: usize, y: usize, z: i64, colour: Colour)
        requires
            old(self).well_formed(),
        ensures
            final(self).well_formed(),
            final(self).width == old(self).width,
            final(self).height == old(self).height,
            ({
                let w = old(self).width as int;
                let idx = (y as int) * w + x as int;
                if x < old(self).width && y < old(self).height && z < old(self).depth@[idx] {
                    &&& final(self).depth@ == old(self).depth@.update(idx, z)
                    &&& final(self).buffer@ == old(self).buffer@.update(4 * idx, colour.red).update(
                        4 * idx + 1,
                        colour.green,
                    ).update(4 * idx + 2, colour.blue).update(4 * idx + 3, colour.alpha)
                } else {
                    &&& final(self).depth@ == old(self).depth@
                    &&& final(self).buffer@ == old(self).buffer@
                }
            }),
    {
        if x >= self.width || y >= self.height {
            return ;
        }
        proof {
            assert((y as int) * (self.width as int) + x < self.width * self.height && (y as int)
                * (self.width as int) + x < 0x1000_0000 && (y as int) * (self.width as int) + x
                >= 0 && 4 * ((y as int) * (self.width as int) + x) + 3 < self.width * self.height
                * 4) by (nonlinear_arith)
                requires
                    x < self.width,
                    y < self.height,
                    self.width <= MAX_SIDE,
                    self.height <= MAX_SIDE,
            ;
        }
        let idx: usize = y * self.width + x;
        if z < self.depth[idx] {
            self.depth[idx] = z;
            let base: usize = idx * 4;
            self.buffer[base] = colour.red;
            self.buffer[base + 1] = colour.green;
            self.buffer[base + 2] = colour.blue;
            self.buffer[base + 3] = colour.alpha;
            proof {
                assert(4 * (idx as int) == (idx as int) * 4);
            }
        }
    }
}


/// Whether a screen point is within the ranges the rasterizer draws.
fn point_ok_at(v: &Vertex) -> (r: bool)
    ensures
        r == point_ok(*v),
{
    -0x1_0000_0000 <= v.x && v.x <= 0x1_0000_0000 && -0x1_0000_0000 <= v.y && v.y
        <= 0x1_0000_0000 && 0 < v.z && v.z <= 0x4000_0000 && -0x2000_0000 <= v.u && v.u <= 0x2000_0000
        && -0x2000_0000 <= v.v && v.v <= 0x2000_0000
}

/// The edge function, exactly.
fn edge_at(ax: i64, ay: i64, bx: i64, by: i64, px: i64, py: i64) -> (r: i64)
    requires
        iabs(ax as int) <= 0x1_0000,
        iabs(ay as int) <= 0x1_0000,
        iabs(bx as int) <= 0x1_0000,
        iabs(by as int) <= 0x1_0000,
        iabs(px as int) <= 0x1_0000,
        iabs(py as int) <= 0x1_0000,
    ensures
        r == edge_f(ax as int, ay as int, bx as int, by as int, px as int, py as int),
        iabs(r as int) <= 0x8_0000_0000,
{
    proof {
        assert(iabs((px - ax) * (by - ay)) <= 0x4_0000_0000 && iabs(
            (py - ay) * (bx - ax),
        ) <= 0x4_0000_0000) by (nonlinear_arith)
            requires
                iabs(ax as int) <= 0x1_0000,
                iabs(ay as int) <= 0x1_0000,
                iabs(bx as int) <= 0x1_0000,
                iabs(by as int) <= 0x1_0000,
                iabs(px as int) <= 0x1_0000,
                iabs(py as int) <= 0x1_0000,
        ;
    }
    (px - ax) * (by - ay) - (py - ay) * (bx - ax)
}

fn min3_at(a: i64, b: i64, c: i64) -> (r: i64)
    ensures
        r == imin3(a as int, b as int, c as int),
{
    if a <= b && a <= c {
        a
    } else if b <= c {
        b
    } else {
        c
    }
}

fn max3_at(a: i64, b: i64, c: i64) -> (r: i64)
    ensures
        r == imax3(a as int, b as int, c as int),
{
    if a >= b && a >= c {
        a
    } else if b >= c {
        b
    } else {
        c
    }
}

fn clamp_at(v: i64, lo: i64, hi: i64) -> (r: i64)
    ensures
        r == iclamp(v as int, lo as int, hi as int),
{
    if v < lo {
        lo
    } else if v > hi {
        hi
    } else {
        v
    }
}

/// The three edge values at any pixel sum to the doubled signed area.
proof fn lemma_edge_sum_raw(x0: int, y0: int, x1: int, y1: int, x2: int, y2: int, x: int, y: int)
    ensures
        edge_f(x1, y1, x2, y2, x, y) + edge_f(x2, y2, x0, y0, x, y) + edge_f(x0, y0, x1, y1, x, y)
            == edge_f(x0, y0, x1, y1, x2, y2),
{
    let a = x - x0;
    let b = y - y0;
    let c = x1 - x0;
    let d = y1 - y0;
    let e = x2 - x0;
    let f = y2 - y0;
    assert((a - c) * (f - d) == a * f - a * d - c * f + c * d) by (nonlinear_arith);
    assert((b - d) * (e - c) == b * e - b * c - d * e + d * c) by (nonlinear_arith);
    assert((e - a) * f == e * f - a * f) by (nonlinear_arith);
    assert((b - f) * e == b * e - f * e) by (nonlinear_arith);
    assert((a - c) * (f - d) - (b - d) * (e - c) + ((e - a) * f + (b - f) * e) + (a * d - b * c)
        == e * d - f * c);
    assert(edge_f(x1, y1, x2, y2, x, y) == (a - c) * (f - d) - (b - d) * (e - c))
        by (nonlinear_arith)
        requires
            a == x - x0 && b == y - y0 && c == x1 - x0 && d == y1 - y0 && e == x2 - x0 && f == y2
                - y0,
    ;
    assert(edge_f(x2, y2, x0, y0, x, y) == (e - a) * f + (b - f) * e) by (nonlinear_arith)
        requires
            a == x - x0 && b == y - y0 && e == x2 - x0 && f == y2 - y0,
    ;
    assert(edge_f(x0, y0, x1, y1, x, y) == a * d - b * c) by (nonlinear_arith)
        requires
            a == x - x0 && b == y - y0 && c == x1 - x0 && d == y1 - y0,
    ;
    assert(edge_f(x0, y0, x1, y1, x2, y2) == e * d - f * c) by (nonlinear_arith)
        requires
            c == x1 - x0 && d == y1 - y0 && e == x2 - x0 && f == y2 - y0,
    ;
}

proof fn lemma_edge_sum(p0: Vertex, p1: Vertex, p2: Vertex, x: int, y: int)
    ensures
        pix_w0(p0, p1, p2, x, y) + pix_w1(p0, p1, p2, x, y) + pix_w2(p0, p1, p2, x, y)
            == tri_area(p0, p1, p2),
{
    lemma_edge_sum_raw(px_x(p0), px_y(p0), px_x(p1), px_y(p1), px_x(p2), px_y(p2), x, y);
}

/// A buffer index decomposes into its pixel row and column.
pub proof fn lemma_rowcol(w: int, i: int)
    requires
        w > 0,
        0 <= i,
    ensures
        i == (i / w) * w + (i % w),
        0 <= i % w < w,
        0 <= i / w,
{
    vstd::arithmetic::div_mod::lemma_fundamental_div_mod(i, w);
    vstd::arithmetic::div_mod::lemma_mod_division_less_than_divisor(i, w);
    vstd::arithmetic::div_mod::lemma_div_pos_is_pos(i, w);
    assert(w * (i / w) == (i / w) * w) by (nonlinear_arith);
}

/// A pixel's row and column give back its buffer index.
proof fn lemma_cell_index(w: int, row: int, col: int)
    requires
        w > 0,
        0 <= col < w,
        0 <= row,
    ensures
        (row * w + col) / w == row,
        (row * w + col) % w == col,
{
    vstd::arithmetic::div_mod::lemma_fundamental_div_mod_converse_div(row * w + col, w, row, col);
    vstd::arithmetic::div_mod::lemma_fundamental_div_mod_converse_mod(row * w + col, w, row, col);
}

/// Perspective-correct interpolation at one pixel, from the normalized
/// (nonnegative) barycentric weights.
fn interpolate(n0: i64, n1: i64, n2: i64, p0: &Vertex, p1: &Vertex, p2: &Vertex) -> (r: (
    i64,
    i64,
    i64,
))
    requires
        0 <= n0 <= 0x8_0000_0000,
        0 <= n1 <= 0x8_0000_0000,
        0 <= n2 <= 0x8_0000_0000,
        0 < n0 + n1 + n2 <= 0x8_0000_0000,
        point_ok(*p0),
        point_ok(*p1),
        point_ok(*p2),
    ensures
        ({
            let den = n0 * (p1.z * p2.z) + n1 * (p0.z * p2.z) + n2 * (p0.z * p1.z);
            &&& den > 0
            &&& r.0 == tdiv((n0 + n1 + n2) * (p0.z * p1.z * p2.z), den)
            &&& 0 <= r.0 <= 0x4000_0000
            &&& r.1 == tdiv(n0 * p0.u * (p1.z * p2.z) + n1 * p1.u * (p0.z * p2.z) + n2 * p2.u * (
            p0.z * p1.z), den)
            &&& iabs(r.1 as int) <= 0x2000_0000
            &&& r.2 == tdiv(n0 * p0.v * (p1.z * p2.z) + n1 * p1.v * (p0.z * p2.z) + n2 * p2.v * (
            p0.z * p1.z), den)
            &&& iabs(r.2 as int) <= 0x2000_0000
        }),
{
    proof {
        lemma_interp_bounds(n0 as int, n1 as int, n2 as int, p0.z as int, p1.z as int, p2.z as int);
        lemma_attr_bound(n0 as int, n1 as int, n2 as int, p0.u as int, p1.u as int, p2.u as int,
            p0.z as int, p1.z as int, p2.z as int);
        lemma_attr_bound(n0 as int, n1 as int, n2 as int, p0.v as int, p1.v as int, p2.v as int,
            p0.z as int, p1.z as int, p2.z as int);
    }
    let zz12: i128 = (p1.z as i128) * (p2.z as i128);
    let zz02: i128 = (p0.z as i128) * (p2.z as i128);
    let zz01: i128 = (p0.z as i128) * (p1.z as i128);
    let den: i128 = (n0 as i128) * zz12 + (n1 as i128) * zz02 + (n2 as i128) * zz01;
    let na: i64 = n0 + n1 + n2;
    let zzz: i128 = zz01 * (p2.z as i128);
    proof {
        assert(p0.z as int * p1.z as int * p2.z as int == ((p0.z as int) * (p1.z as int)) * (
        p2.z as int)) by (nonlinear_arith);
    }
    let depth: i128 = tdiv128((na as i128) * zzz, den);
    let nu: i128 = (n0 as i128) * (p0.u as i128) * zz12 + (n1 as i128) * (p1.u as i128) * zz02 + (
    n2 as i128) * (p2.u as i128) * zz01;
    let nv: i128 = (n0 as i128) * (p0.v as i128) * zz12 + (n1 as i128) * (p1.v as i128) * zz02 + (
    n2 as i128) * (p2.v as i128) * zz01;
    let iu: i128 = tdiv128(nu, den);
    let iv: i128 = tdiv128(nv, den);
    (depth as i64, iu as i64, iv as i64)
}

/// Range and positivity facts for the perspective-correct denominator
/// and depth numerator.
proof fn lemma_interp_bounds(n0: int, n1: int, n2: int, z0: int, z1: int, z2: int)
    requires
        0 <= n0 <= 0x8_0000_0000,
        0 <= n1 <= 0x8_0000_0000,
        0 <= n2 <= 0x8_0000_0000,
        0 < n0 + n1 + n2 <= 0x8_0000_0000,
        1 <= z0 <= 0x4000_0000,
        1 <= z1 <= 0x4000_0000,
        1 <= z2 <= 0x4000_0000,
    ensures
        1 <= z1 * z2 <= 0x1000_0000_0000_0000,
        1 <= z0 * z2 <= 0x1000_0000_0000_0000,
        1 <= z0 * z1 <= 0x1000_0000_0000_0000,
        0 <= n0 * (z1 * z2) <= 0x8000_0000_0000_0000_0000_0000,
        0 <= n1 * (z0 * z2) <= 0x8000_0000_0000_0000_0000_0000,
        0 <= n2 * (z0 * z1) <= 0x8000_0000_0000_0000_0000_0000,
        n0 * (z1 * z2) + n1 * (z0 * z2) + n2 * (z0 * z1) > 0,
        1 <= z0 * z1 * z2 <= 0x400_0000_0000_0000_0000_0000,
        0 <= (n0 + n1 + n2) * (z0 * z1 * z2) <= 0x2000_0000_0000_0000_0000_0000_0000_0000,
        0 <= tdiv(
            (n0 + n1 + n2) * (z0 * z1 * z2),
            n0 * (z1 * z2) + n1 * (z0 * z2) + n2 * (z0 * z1),
        ) <= 0x4000_0000,
{
    assert(1 <= z1 * z2 <= 0x1000_0000_0000_0000 && 1 <= z0 * z2 <= 0x1000_0000_0000_0000 && 1
        <= z0 * z1 <= 0x1000_0000_0000_0000) by (nonlinear_arith)
        requires
            1 <= z0 <= 0x4000_0000,
            1 <= z1 <= 0x4000_0000,
            1 <= z2 <= 0x4000_0000,
    ;
    assert(0 <= n0 * (z1 * z2) <= 0x8000_0000_0000_0000_0000_0000) by (nonlinear_arith)
        requires
            0 <= n0 <= 0x8_0000_0000,
            1 <= z1 * z2 <= 0x1000_0000_0000_0000,
    ;
    assert(0 <= n1 * (z0 * z2) <= 0x8000_0000_0000_0000_0000_0000) by (nonlinear_arith)
        requires
            0 <= n1 <= 0x8_0000_0000,
            1 <= z0 * z2 <= 0x1000_0000_0000_0000,
    ;
    assert(0 <= n2 * (z0 * z1) <= 0x8000_0000_0000_0000_0000_0000) by (nonlinear_arith)
        requires
            0 <= n2 <= 0x8_0000_0000,
            1 <= z0 * z1 <= 0x1000_0000_0000_0000,
    ;
    let den = n0 * (z1 * z2) + n1 * (z0 * z2) + n2 * (z0 * z1);
    if n0 > 0 {
        assert(n0 * (z1 * z2) >= 1) by (nonlinear_arith)
            requires
                n0 >= 1,
                z1 * z2 >= 1,
        ;
    } else if n1 > 0 {
        assert(n1 * (z0 * z2) >= 1) by (nonlinear_arith)
            requires
                n1 >= 1,
                z0 * z2 >= 1,
        ;
    } else {
        assert(n2 * (z0 * z1) >= 1) by (nonlinear_arith)
            requires
                n2 >= 1,
                z0 * z1 >= 1,
        ;
    }
    assert(1 <= z0 * z1 * z2 <= 0x400_0000_0000_0000_0000_0000) by (nonlinear_arith)
        requires
            1 <= z0 * z1 <= 0x1000_0000_0000_0000,
            1 <= z2 <= 0x4000_0000,
    ;
    let na = n0 + n1 + n2;
    let zzz = z0 * z1 * z2;
    assert(0 <= na * zzz <= 0x2000_0000_0000_0000_0000_0000_0000_0000) by (nonlinear_arith)
        requires
            0 < na <= 0x8_0000_0000,
            1 <= zzz <= 0x400_0000_0000_0000_0000_0000,
    ;
    let zm = imax3(z0, z1, z2);
    assert(n0 * (z1 * z2) * zm >= n0 * zzz) by (nonlinear_arith)
        requires
            zm >= z0,
            n0 >= 0,
            z1 >= 1,
            z2 >= 1,
            zzz == z0 * z1 * z2,
    ;
    assert(n1 * (z0 * z2) * zm >= n1 * zzz) by (nonlinear_arith)
        requires
            zm >= z1,
            n1 >= 0,
            z0 >= 1,
            z2 >= 1,
            zzz == z0 * z1 * z2,
    ;
    assert(n2 * (z0 * z1) * zm >= n2 * zzz) by (nonlinear_arith)
        requires
            zm >= z2,
            n2 >= 0,
            z0 >= 1,
            z1 >= 1,
            zzz == z0 * z1 * z2,
    ;
    assert(den * zm >= na * zzz) by (nonlinear_arith)
        requires
            den == n0 * (z1 * z2) + n1 * (z0 * z2) + n2 * (z0 * z1),
            na == n0 + n1 + n2,
            n0 * (z1 * z2) * zm >= n0 * zzz,
            n1 * (z0 * z2) * zm >= n1 * zzz,
            n2 * (z0 * z1) * zm >= n2 * zzz,
    ;
    assert(0 <= zm <= 0x4000_0000);
    crate::fixed::lemma_tdiv_bound(na * zzz, den, zm);
    crate::fixed::lemma_tdiv_sign(na * zzz, den);
}

/// The interpolated numerator of an attribute is bounded by the
/// attribute bound times the denominator, so the interpolated attribute
/// keeps the inputs' bound.
proof fn lemma_attr_bound(
    n0: int,
    n1: int,
    n2: int,
    a0: int,
    a1: int,
    a2: int,
    z0: int,
    z1: int,
    z2: int,
)
    requires
        0 <= n0 <= 0x8_0000_0000,
        0 <= n1 <= 0x8_0000_0000,
        0 <= n2 <= 0x8_0000_0000,
        0 < n0 + n1 + n2 <= 0x8_0000_0000,
        iabs(a0) <= 0x2000_0000,
        iabs(a1) <= 0x2000_0000,
        iabs(a2) <= 0x2000_0000,
        1 <= z0 <= 0x4000_0000,
        1 <= z1 <= 0x4000_0000,
        1 <= z2 <= 0x4000_0000,
    ensures
        iabs(n0 * a0) <= 0x1_0000_0000_0000_0000,
        iabs(n1 * a1) <= 0x1_0000_0000_0000_0000,
        iabs(n2 * a2) <= 0x1_0000_0000_0000_0000,
        iabs(n0 * a0 * (z1 * z2)) <= 0x1000_0000_0000_0000_0000_0000_0000_0000,
        iabs(n1 * a1 * (z0 * z2)) <= 0x1000_0000_0000_0000_0000_0000_0000_0000,
        iabs(n2 * a2 * (z0 * z1)) <= 0x1000_0000_0000_0000_0000_0000_0000_0000,
        iabs(
            tdiv(
                n0 * a0 * (z1 * z2) + n1 * a1 * (z0 * z2) + n2 * a2 * (z0 * z1),
                n0 * (z1 * z2) + n1 * (z0 * z2) + n2 * (z0 * z1),
            ),
        ) <= 0x2000_0000,
{
    lemma_interp_bounds(n0, n1, n2, z0, z1, z2);
    assert(iabs(n0 * a0) <= 0x1_0000_0000_0000_0000 && iabs(n1 * a1) <= 0x1_0000_0000_0000_0000 && iabs(
        n2 * a2,
    ) <= 0x1_0000_0000_0000_0000) by (nonlinear_arith)
        requires
            0 <= n0 <= 0x8_0000_0000,
            0 <= n1 <= 0x8_0000_0000,
            0 <= n2 <= 0x8_0000_0000,
            iabs(a0) <= 0x2000_0000,
            iabs(a1) <= 0x2000_0000,
            iabs(a2) <= 0x2000_0000,
    ;
    assert(iabs(n0 * a0 * (z1 * z2)) <= n0 * (z1 * z2) * 0x2000_0000 && n0 * (z1 * z2) * 0x2000_0000
        <= 0x1000_0000_0000_0000_0000_0000_0000_0000) by (nonlinear_arith)
        requires
            0 <= n0 <= 0x8_0000_0000,
            iabs(a0) <= 0x2000_0000,
            1 <= z1 * z2 <= 0x1000_0000_0000_0000,
    ;
    assert(iabs(n1 * a1 * (z0 * z2)) <= n1 * (z0 * z2) * 0x2000_0000 && n1 * (z0 * z2) * 0x2000_0000
        <= 0x1000_0000_0000_0000_0000_0000_0000_0000) by (nonlinear_arith)
        requires
            0 <= n1 <= 0x8_0000_0000,
            iabs(a1) <= 0x2000_0000,
            1 <= z0 * z2 <= 0x1000_0000_0000_0000,
    ;
    assert(iabs(n2 * a2 * (z0 * z1)) <= n2 * (z0 * z1) * 0x2000_0000 && n2 * (z0 * z1) * 0x2000_0000
        <= 0x1000_0000_0000_0000_0000_0000_0000_0000) by (nonlinear_arith)
        requires
            0 <= n2 <= 0x8_0000_0000,
            iabs(a2) <= 0x2000_0000,
            1 <= z0 * z1 <= 0x1000_0000_0000_0000,
    ;
    let den = n0 * (z1 * z2) + n1 * (z0 * z2) + n2 * (z0 * z1);
    assert(iabs(n0 * a0 * (z1 * z2) + n1 * a1 * (z0 * z2) + n2 * a2 * (z0 * z1)) <= den
        * 0x2000_0000) by (nonlinear_arith)
        requires
            iabs(n0 * a0 * (z1 * z2)) <= n0 * (z1 * z2) * 0x2000_0000,
            iabs(n1 * a1 * (z0 * z2)) <= n1 * (z0 * z2) * 0x2000_0000,
            iabs(n2 * a2 * (z0 * z1)) <= n2 * (z0 * z1) * 0x2000_0000,
            den == n0 * (z1 * z2) + n1 * (z0 * z2) + n2 * (z0 * z1),
    ;
    crate::fixed::lemma_tdiv_bound(
        n0 * a0 * (z1 * z2) + n1 * a1 * (z0 * z2) + n2 * a2 * (z0 * z1),
        den,
        0x2000_0000,
    );
}


/// The scan has already visited pixel `i`: its row is above the current
/// one, or it is on the current row left of the current column.
pub open spec fn scanned(w: int, row: int, col: int, i: int) -> bool {
    i / w < row || (i / w == row && i % w < col)
}

impl Renderer {
    /// Rasterize one triangle: cull it when it faces away from the viewer
    /// or is degenerate or out of the accepted coordinate ranges; else
    /// depth-test every covered pixel of its clamped bounding box and
    /// write the material's colour where it wins.
    pub fn fill_triangle(&mut self, v0: &Vertex, v1: &Vertex, v2: &Vertex, material: &Material)
        requires
            old(self).well_formed(),
            material.well_formed(),
        ensures
            final(self).well_formed(),
            final(self).width == old(self).width,
            final(self).height == old(self).height,
            tri_skipped(*v0, *v1, *v2) ==> final(self).depth@ == old(self).depth@
                && final(self).buffer@ == old(self).buffer@,
            !tri_skipped(*v0, *v1, *v2) ==> (forall|i: int|
                0 <= i < old(self).depth@.len() ==> #[trigger] final(self).depth@[i]
                    == depth_after(
                    *v0,
                    *v1,
                    *v2,
                    old(self).width as int,
                    old(self).height as int,
                    old(self).depth@,
                    i,
                )) && (forall|j: int|
                0 <= j < old(self).buffer@.len() ==> #[trigger] final(self).buffer@[j]
                    == byte_after(
                    *v0,
                    *v1,
                    *v2,
                    *material,
                    old(self).width as int,
                    old(self).height as int,
                    old(self).depth@,
                    old(self).buffer@,
                    j,
                )),
    {
        if !point_ok_at(v0) || !point_ok_at(v1) || !point_ok_at(v2) {
            return ;
        }
        if is_back_facing(v0, v1, v2) {
            return ;
        }
        let x0 = tdiv64(v0.x, 65536);
        let y0 = tdiv64(v0.y, 65536);
        let x1 = tdiv64(v1.x, 65536);
        let y1 = tdiv64(v1.y, 65536);
        let x2 = tdiv64(v2.x, 65536);
        let y2 = tdiv64(v2.y, 65536);
        let area = edge_at(x0, y0, x1, y1, x2, y2);
        if area == 0 {
            return ;
        }
        if self.width == 0 || self.height == 0 {
            proof {
                let ww = old(self).width;
                let hh = old(self).height;
                assert(ww * hh == 0) by (nonlinear_arith)
                    requires
                        ww == 0 || hh == 0,
                ;
            }
            return ;
        }
        let wq: i64 = self.width as i64;
        let hq: i64 = self.height as i64;
        let min_x = clamp_at(min3_at(x0, x1, x2), 0, wq - 1);
        let max_x = clamp_at(max3_at(x0, x1, x2), 0, wq - 1);
        let min_y = clamp_at(min3_at(y0, y1, y2), 0, hq - 1);
        let max_y = clamp_at(max3_at(y0, y1, y2), 0, hq - 1);
        let ghost gw = old(self).width as int;
        let ghost gh = old(self).height as int;
        let mut yy: i64 = min_y;
        while yy <= max_y
            invariant
                self.well_formed(),
                self.width == old(self).width,
                self.height == old(self).height,
                1 <= gw == self.width <= MAX_SIDE,
                1 <= gh == self.height <= MAX_SIDE,
                old(self).depth@.len() == gw * gh,
                old(self).buffer@.len() == gw * gh * 4,
                material.well_formed(),
                point_ok(*v0) && point_ok(*v1) && point_ok(*v2),
                x0 == px_x(*v0) && y0 == px_y(*v0),
                x1 == px_x(*v1) && y1 == px_y(*v1),
                x2 == px_x(*v2) && y2 == px_y(*v2),
                area == tri_area(*v0, *v1, *v2),
                area != 0,
                iabs(area as int) <= 0x8_0000_0000,
                min_x == iclamp(imin3(x0 as int, x1 as int, x2 as int), 0, gw - 1),
                max_x == iclamp(imax3(x0 as int, x1 as int, x2 as int), 0, gw - 1),
                min_y == iclamp(imin3(y0 as int, y1 as int, y2 as int), 0, gh - 1),
                max_y == iclamp(imax3(y0 as int, y1 as int, y2 as int), 0, gh - 1),
                0 <= min_x <= max_x <= gw - 1,
                0 <= min_y <= max_y <= gh - 1,
                min_y <= yy <= max_y + 1,
                forall|i: int|
                    0 <= i < old(self).depth@.len() ==> #[trigger] self.depth@[i] == (
                    if scanned(gw, yy as int, min_x as int, i) {
                        depth_after(*v0, *v1, *v2, gw, gh, old(self).depth@, i)
                    } else {
                        old(self).depth@[i]
                    }),
                forall|j: int|
                    0 <= j < old(self).buffer@.len() ==> #[trigger] self.buffer@[j] == (
                    if scanned(gw, yy as int, min_x as int, j / 4) {
                        byte_after(
                            *v0,
                            *v1,
                            *v2,
                            *material,
                            gw,
                            gh,
                            old(self).depth@,
                            old(self).buffer@,
                            j,
                        )
                    } else {
                        old(self).buffer@[j]
                    }),
            decreases max_y + 1 - yy,
        {
            let mut xx: i64 = min_x;
            while xx <= max_x
                invariant
                    self.well_formed(),
                    self.width == old(self).width,
                    self.height == old(self).height,
                    1 <= gw == self.width <= MAX_SIDE,
                    1 <= gh == self.height <= MAX_SIDE,
                    old(self).depth@.len() == gw * gh,
                    old(self).buffer@.len() == gw * gh * 4,
                    material.well_formed(),
                    point_ok(*v0) && point_ok(*v1) && point_ok(*v2),
                    x0 == px_x(*v0) && y0 == px_y(*v0),
                    x1 == px_x(*v1) && y1 == px_y(*v1),
                    x2 == px_x(*v2) && y2 == px_y(*v2),
                    area == tri_area(*v0, *v1, *v2),
                    area != 0,
                    iabs(area as int) <= 0x8_0000_0000,
                    min_x == iclamp(imin3(x0 as int, x1 as int, x2 as int), 0, gw - 1),
                    max_x == iclamp(imax3(x0 as int, x1 as int, x2 as int), 0, gw - 1),
                    min_y == iclamp(imin3(y0 as int, y1 as int, y2 as int), 0, gh - 1),
                    max_y == iclamp(imax3(y0 as int, y1 as int, y2 as int), 0, gh - 1),
                    0 <= min_x <= max_x <= gw - 1,
                    0 <= min_y <= yy <= max_y <= gh - 1,
                    min_x <= xx <= max_x + 1,
                    forall|i: int|
                        0 <= i < old(self).depth@.len() ==> #[trigger] self.depth@[i] == (
                        if scanned(gw, yy as int, xx as int, i) {
                            depth_after(*v0, *v1, *v2, gw, gh, old(self).depth@, i)
                        } else {
                            old(self).depth@[i]
                        }),
                    forall|j: int|
                        0 <= j < old(self).buffer@.len() ==> #[trigger] self.buffer@[j] == (
                        if scanned(gw, yy as int, xx as int, j / 4) {
                            byte_after(
                                *v0,
                                *v1,
                                *v2,
                                *material,
                                gw,
                                gh,
                                old(self).depth@,
                                old(self).buffer@,
                                j,
                            )
                        } else {
                            old(self).buffer@[j]
                        }),
                decreases max_x + 1 - xx,
            {
                let ghost prev_depth = self.depth@;
                let ghost prev_buffer = self.buffer@;
                let ghost idx = (yy as int) * gw + xx as int;
                proof {
                    lemma_cell_index(gw, yy as int, xx as int);
                    lemma_edge_sum(*v0, *v1, *v2, xx as int, yy as int);
                    assert(0 <= idx < gw * gh && 4 * idx + 3 < gw * gh * 4) by (nonlinear_arith)
                        requires
                            idx == (yy as int) * gw + xx as int,
                            0 <= xx as int && (xx as int) < gw,
                            0 <= yy as int && (yy as int) < gh,
                    ;
                }
                let e0 = edge_at(x1, y1, x2, y2, xx, yy);
                let e1 = edge_at(x2, y2, x0, y0, xx, yy);
                let e2 = edge_at(x0, y0, x1, y1, xx, yy);
                if (e0 >= 0 && e1 >= 0 && e2 >= 0) || (e0 <= 0 && e1 <= 0 && e2 <= 0) {
                    let (n0, n1, n2) = if area < 0 {
                        (-e0, -e1, -e2)
                    } else {
                        (e0, e1, e2)
                    };
                    let (d, iu, iv) = interpolate(n0, n1, n2, v0, v1, v2);
                    let c = material.shade(iu, iv);
                    proof {
                        assert(pix_covered(*v0, *v1, *v2, gw, gh, xx as int, yy as int));
                        assert(d == pix_depth(*v0, *v1, *v2, xx as int, yy as int));
                        assert(c == pix_colour(*v0, *v1, *v2, *material, xx as int, yy as int));
                        assert(prev_depth[idx] == old(self).depth@[idx]);
                    }
                    self.put_pixel_depth(xx as usize, yy as usize, d, c);
                    proof {
                        lemma_scan_step(
                            *v0,
                            *v1,
                            *v2,
                            *material,
                            gw,
                            gh,
                            old(self).depth@,
                            old(self).buffer@,
                            prev_depth,
                            prev_buffer,
                            self.depth@,
                            self.buffer@,
                            yy as int,
                            xx as int,
                            d as int,
                            c,
                            true,
                        );
                    }
                } else {
                    proof {
                        assert(!pix_inside(*v0, *v1, *v2, xx as int, yy as int));
                        lemma_scan_step(
                            *v0,
                            *v1,
                            *v2,
                            *material,
                            gw,
                            gh,
                            old(self).depth@,
                            old(self).buffer@,
                            prev_depth,
                            prev_buffer,
                            self.depth@,
                            self.buffer@,
                            yy as int,
                            xx as int,
                            0,
                            Colour { red: 0, green: 0, blue: 0, alpha: 0 },
                            false,
                        );
                    }
                }
                xx = xx + 1;
            }
            proof {
                lemma_row_end(
                    *v0,
                    *v1,
                    *v2,
                    *material,
                    gw,
                    gh,
                    old(self).depth@,
                    old(self).buffer@,
                    self.depth@,
                    self.buffer@,
                    yy as int,
                    min_x as int,
                    max_x as int,
                );
            }
            yy = yy + 1;
        }
        proof {
            lemma_scan_done(
                *v0,
                *v1,
                *v2,
                *material,
                gw,
                gh,
                old(self).depth@,
                old(self).buffer@,
                self.depth@,
                self.buffer@,
                max_y as int + 1,
                min_x as int,
                max_y as int,
            );
        }
    }
}


/// Advancing the scan frontier by the one pixel just visited keeps the
/// frontier invariant: the visited pixel now holds its after-value, and
/// no other cell moved.
#[verifier::rlimit(100)]
proof fn lemma_scan_step(
    p0: Vertex,
    p1: Vertex,
    p2: Vertex,
    m: Material,
    w: int,
    h: int,
    old_depth: Seq<i64>,
    old_buffer: Seq<u8>,
    prev_depth: Seq<i64>,
    prev_buffer: Seq<u8>,
    cur_depth: Seq<i64>,
    cur_buffer: Seq<u8>,
    row: int,
    col: int,
    d: int,
    c: Colour,
    covered: bool,
)
    requires
        w >= 1,
        h >= 1,
        0 <= col < w,
        0 <= row < h,
        old_depth.len() == w * h,
        old_buffer.len() == w * h * 4,
        prev_depth.len() == old_depth.len(),
        prev_buffer.len() == old_buffer.len(),
        forall|i: int|
            0 <= i < old_depth.len() ==> #[trigger] prev_depth[i] == (if scanned(w, row, col, i) {
                depth_after(p0, p1, p2, w, h, old_depth, i)
            } else {
                old_depth[i]
            }),
        forall|j: int|
            0 <= j < old_buffer.len() ==> #[trigger] prev_buffer[j] == (if scanned(
                w,
                row,
                col,
                j / 4,
            ) {
                byte_after(p0, p1, p2, m, w, h, old_depth, old_buffer, j)
            } else {
                old_buffer[j]
            }),
        covered ==> pix_covered(p0, p1, p2, w, h, col, row),
        covered ==> d == pix_depth(p0, p1, p2, col, row),
        covered ==> 0 <= d <= 0x4000_0000,
        covered ==> c == pix_colour(p0, p1, p2, m, col, row),
        covered ==> (if d < prev_depth[row * w + col] {
            cur_depth == prev_depth.update(row * w + col, d as i64) && cur_buffer
                == prev_buffer.update(4 * (row * w + col), c.red).update(
                4 * (row * w + col) + 1,
                c.green,
            ).update(4 * (row * w + col) + 2, c.blue).update(4 * (row * w + col) + 3, c.alpha)
        } else {
            cur_depth == prev_depth && cur_buffer == prev_buffer
        }),
        !covered ==> !pix_inside(p0, p1, p2, col, row),
        !covered ==> cur_depth == prev_depth && cur_buffer == prev_buffer,
    ensures
        cur_depth.len() == old_depth.len(),
        cur_buffer.len() == old_buffer.len(),
        forall|i: int|
            0 <= i < old_depth.len() ==> #[trigger] cur_depth[i] == (if scanned(
                w,
                row,
                col + 1,
                i,
            ) {
                depth_after(p0, p1, p2, w, h, old_depth, i)
            } else {
                old_depth[i]
            }),
        forall|j: int|
            0 <= j < old_buffer.len() ==> #[trigger] cur_buffer[j] == (if scanned(
                w,
                row,
                col + 1,
                j / 4,
            ) {
                byte_after(p0, p1, p2, m, w, h, old_depth, old_buffer, j)
            } else {
                old_buffer[j]
            }),
{
    let idx = row * w + col;
    lemma_cell_index(w, row, col);
    assert(0 <= idx < w * h && 4 * idx + 3 < w * h * 4) by (nonlinear_arith)
        requires
            idx == row * w + col,
            0 <= col < w,
            0 <= row < h,
    ;
    assert(!scanned(w, row, col, idx));
    assert(prev_depth[idx] == old_depth[idx]);
    assert forall|i: int| 0 <= i < old_depth.len() implies #[trigger] cur_depth[i] == (
    if scanned(w, row, col + 1, i) {
        depth_after(p0, p1, p2, w, h, old_depth, i)
    } else {
        old_depth[i]
    }) by {
        lemma_rowcol(w, i);
        if i == idx {
            assert(scanned(w, row, col + 1, i));
        } else {
            assert(scanned(w, row, col + 1, i) == scanned(w, row, col, i));
        }
    };
    assert forall|j: int| 0 <= j < old_buffer.len() implies #[trigger] cur_buffer[j] == (
    if scanned(w, row, col + 1, j / 4) {
        byte_after(p0, p1, p2, m, w, h, old_depth, old_buffer, j)
    } else {
        old_buffer[j]
    }) by {
        vstd::arithmetic::div_mod::lemma_fundamental_div_mod(j, 4);
        vstd::arithmetic::div_mod::lemma_mod_division_less_than_divisor(j, 4);
        let pj = j / 4;
        assert(j == 4 * pj + j % 4);
        assert(0 <= pj < w * h) by (nonlinear_arith)
            requires
                0 <= j < w * h * 4,
                j == 4 * pj + j % 4,
                0 <= j % 4 < 4,
        ;
        lemma_rowcol(w, pj);
        if pj == idx {
            assert(scanned(w, row, col + 1, pj));
        } else {
            assert(scanned(w, row, col + 1, pj) == scanned(w, row, col, pj));
            assert(j < 4 * idx || j > 4 * idx + 3) by (nonlinear_arith)
                requires
                    pj != idx,
                    j == 4 * pj + j % 4,
                    0 <= j % 4 < 4,
            ;
        }
    };
}

/// At the end of a row the frontier moves to the start of the next one:
/// the pixels right of the bounding box it steps over are outside it and
/// keep their old values either way.
#[verifier::rlimit(100)]
proof fn lemma_row_end(
    p0: Vertex,
    p1: Vertex,
    p2: Vertex,
    m: Material,
    w: int,
    h: int,
    old_depth: Seq<i64>,
    old_buffer: Seq<u8>,
    cur_depth: Seq<i64>,
    cur_buffer: Seq<u8>,
    row: int,
    minc: int,
    maxc: int,
)
    requires
        w >= 1,
        h >= 1,
        0 <= row < h,
        old_depth.len() == w * h,
        old_buffer.len() == w * h * 4,
        cur_depth.len() == old_depth.len(),
        cur_buffer.len() == old_buffer.len(),
        minc == iclamp(imin3(px_x(p0), px_x(p1), px_x(p2)), 0, w - 1),
        maxc == iclamp(imax3(px_x(p0), px_x(p1), px_x(p2)), 0, w - 1),
        forall|i: int|
            0 <= i < old_depth.len() ==> #[trigger] cur_depth[i] == (if scanned(
                w,
                row,
                maxc + 1,
                i,
            ) {
                depth_after(p0, p1, p2, w, h, old_depth, i)
            } else {
                old_depth[i]
            }),
        forall|j: int|
            0 <= j < old_buffer.len() ==> #[trigger] cur_buffer[j] == (if scanned(
                w,
                row,
                maxc + 1,
                j / 4,
            ) {
                byte_after(p0, p1, p2, m, w, h, old_depth, old_buffer, j)
            } else {
                old_buffer[j]
            }),
    ensures
        forall|i: int|
            0 <= i < old_depth.len() ==> #[trigger] cur_depth[i] == (if scanned(
                w,
                row + 1,
                minc,
                i,
            ) {
                depth_after(p0, p1, p2, w, h, old_depth, i)
            } else {
                old_depth[i]
            }),
        forall|j: int|
            0 <= j < old_buffer.len() ==> #[trigger] cur_buffer[j] == (if scanned(
                w,
                row + 1,
                minc,
                j / 4,
            ) {
                byte_after(p0, p1, p2, m, w, h, old_depth, old_buffer, j)
            } else {
                old_buffer[j]
            }),
{
    assert forall|i: int| 0 <= i < old_depth.len() implies #[trigger] cur_depth[i] == (
    if scanned(w, row + 1, minc, i) {
        depth_after(p0, p1, p2, w, h, old_depth, i)
    } else {
        old_depth[i]
    }) by {
        lemma_rowcol(w, i);
        if scanned(w, row + 1, minc, i) != scanned(w, row, maxc + 1, i) {
            assert(!pix_covered(p0, p1, p2, w, h, i % w, i / w));
        }
    };
    assert forall|j: int| 0 <= j < old_buffer.len() implies #[trigger] cur_buffer[j] == (
    if scanned(w, row + 1, minc, j / 4) {
        byte_after(p0, p1, p2, m, w, h, old_depth, old_buffer, j)
    } else {
        old_buffer[j]
    }) by {
        vstd::arithmetic::div_mod::lemma_fundamental_div_mod(j, 4);
        vstd::arithmetic::div_mod::lemma_mod_division_less_than_divisor(j, 4);
        let pj = j / 4;
        assert(0 <= pj < w * h) by (nonlinear_arith)
            requires
                0 <= j < w * h * 4,
                j == 4 * pj + j % 4,
                0 <= j % 4 < 4,
        ;
        lemma_rowcol(w, pj);
        if scanned(w, row + 1, minc, pj) != scanned(w, row, maxc + 1, pj) {
            assert(!pix_covered(p0, p1, p2, w, h, pj % w, pj / w));
        }
    };
}

/// When the frontier has passed the last bounding-box row, every cell
/// holds its after-value: the rows never visited lie outside the box.
#[verifier::rlimit(100)]
proof fn lemma_scan_done(
    p0: Vertex,
    p1: Vertex,
    p2: Vertex,
    m: Material,
    w: int,
    h: int,
    old_depth: Seq<i64>,
    old_buffer: Seq<u8>,
    cur_depth: Seq<i64>,
    cur_buffer: Seq<u8>,
    row: int,
    minc: int,
    maxr: int,
)
    requires
        w >= 1,
        h >= 1,
        old_depth.len() == w * h,
        old_buffer.len() == w * h * 4,
        cur_depth.len() == old_depth.len(),
        cur_buffer.len() == old_buffer.len(),
        row == maxr + 1,
        maxr == iclamp(imax3(px_y(p0), px_y(p1), px_y(p2)), 0, h - 1),
        forall|i: int|
            0 <= i < old_depth.len() ==> #[trigger] cur_depth[i] == (if scanned(w, row, minc, i) {
                depth_after(p0, p1, p2, w, h, old_depth, i)
            } else {
                old_depth[i]
            }),
        forall|j: int|
            0 <= j < old_buffer.len() ==> #[trigger] cur_buffer[j] == (if scanned(
                w,
                row,
                minc,
                j / 4,
            ) {
                byte_after(p0, p1, p2, m, w, h, old_depth, old_buffer, j)
            } else {
                old_buffer[j]
            }),
    ensures
        forall|i: int|
            0 <= i < old_depth.len() ==> #[trigger] cur_depth[i] == depth_after(
                p0,
                p1,
                p2,
                w,
                h,
                old_depth,
                i,
            ),
        forall|j: int|
            0 <= j < old_buffer.len() ==> #[trigger] cur_buffer[j] == byte_after(
                p0,
                p1,
                p2,
                m,
                w,
                h,
                old_depth,
                old_buffer,
                j,
            ),
{
    assert forall|i: int| 0 <= i < old_depth.len() implies #[trigger] cur_depth[i] == depth_after(
        p0,
        p1,
        p2,
        w,
        h,
        old_depth,
        i,
    ) by {
        lemma_rowcol(w, i);
        if !scanned(w, row, minc, i) {
            assert(i / w >= row || (i / w == row && i % w >= minc));
            assert(!pix_covered(p0, p1, p2, w, h, i % w, i / w));
        }
    };
    assert forall|j: int| 0 <= j < old_buffer.len() implies #[trigger] cur_buffer[j] == byte_after(
        p0,
        p1,
        p2,
        m,
        w,
        h,
        old_depth,
        old_buffer,
        j,
    ) by {
        vstd::arithmetic::div_mod::lemma_fundamental_div_mod(j, 4);
        vstd::arithmetic::div_mod::lemma_mod_division_less_than_divisor(j, 4);
        let pj = j / 4;
        assert(0 <= pj < w * h) by (nonlinear_arith)
            requires
                0 <= j < w * h * 4,
                j == 4 * pj + j % 4,
                0 <= j % 4 < 4,
        ;
        lemma_rowcol(w, pj);
        if !scanned(w, row, minc, pj) {
            assert(!pix_covered(p0, p1, p2, w, h, pj % w, pj / w));
        }
    };
}


/// The depth test makes overlap order-independent: on a freshly cleared
/// pixel covered by two triangles of different depths, drawing them in
/// either order leaves the nearer triangle's colour, here stated with
/// `a` the nearer. Each draw turns the buffers into the pointwise
/// `depth_after` and `byte_after` maps, so two draws compose them.
pub proof fn lemma_depth_test_order_independent(
    a0: Vertex,
    a1: Vertex,
    a2: Vertex,
    ma: Material,
    b0: Vertex,
    b1: Vertex,
    b2: Vertex,
    mb: Material,
    w: int,
    h: int,
    depth0: Seq<i64>,
    buffer0: Seq<u8>,
    j: int,
)
    requires
        w >= 1,
        h >= 1,
        depth0.len() == w * h,
        buffer0.len() == w * h * 4,
        0 <= j < buffer0.len(),
        depth0[j / 4] == DEPTH_INF,
        pix_covered(a0, a1, a2, w, h, (j / 4) % w, (j / 4) / w),
        pix_covered(b0, b1, b2, w, h, (j / 4) % w, (j / 4) / w),
        0 <= pix_depth(a0, a1, a2, (j / 4) % w, (j / 4) / w),
        pix_depth(a0, a1, a2, (j / 4) % w, (j / 4) / w) < pix_depth(
            b0,
            b1,
            b2,
            (j / 4) % w,
            (j / 4) / w,
        ),
        pix_depth(b0, b1, b2, (j / 4) % w, (j / 4) / w) < DEPTH_INF,
    ensures
        byte_after(
            b0,
            b1,
            b2,
            mb,
            w,
            h,
            Seq::new((w * h) as nat, |k: int| depth_after(a0, a1, a2, w, h, depth0, k)),
            Seq::new(
                (w * h * 4) as nat,
                |k: int| byte_after(a0, a1, a2, ma, w, h, depth0, buffer0, k),
            ),
            j,
        ) == byte_after(a0, a1, a2, ma, w, h, depth0, buffer0, j),
        byte_after(
            a0,
            a1,
            a2,
            ma,
            w,
            h,
            Seq::new((w * h) as nat, |k: int| depth_after(b0, b1, b2, w, h, depth0, k)),
            Seq::new(
                (w * h * 4) as nat,
                |k: int| byte_after(b0, b1, b2, mb, w, h, depth0, buffer0, k),
            ),
            j,
        ) == byte_after(a0, a1, a2, ma, w, h, depth0, buffer0, j),
{
    let i = j / 4;
    vstd::arithmetic::div_mod::lemma_fundamental_div_mod(j, 4);
    vstd::arithmetic::div_mod::lemma_mod_division_less_than_divisor(j, 4);
    assert(0 <= i < w * h) by (nonlinear_arith)
        requires
            0 <= j < w * h * 4,
            j == 4 * i + j % 4,
            0 <= j % 4 < 4,
    ;
    let da1 = Seq::new((w * h) as nat, |k: int| depth_after(a0, a1, a2, w, h, depth0, k));
    let db1 = Seq::new((w * h) as nat, |k: int| depth_after(b0, b1, b2, w, h, depth0, k));
    assert(pix_drawn(a0, a1, a2, w, h, depth0, i));
    assert(da1[i] == pix_depth(a0, a1, a2, i % w, i / w));
    assert(!pix_drawn(b0, b1, b2, w, h, da1, i));
    assert(pix_drawn(b0, b1, b2, w, h, depth0, i));
    assert(db1[i] == pix_depth(b0, b1, b2, i % w, i / w));
    assert(pix_drawn(a0, a1, a2, w, h, db1, i));
}


/// The depth buffer a draw leaves, as a map: what `fill_triangle`'s
/// contract states pointwise, collected into a sequence.
pub open spec fn depth_map(
    p0: Vertex,
    p1: Vertex,
    p2: Vertex,
    width: int,
    height: int,
    old_depth: Seq<i64>,
) -> Seq<i64> {
    Seq::new(old_depth.len(), |k: int| depth_after(p0, p1, p2, width, height, old_depth, k))
}

/// The colour buffer a draw leaves, as a map.
pub open spec fn buffer_map(
    p0: Vertex,
    p1: Vertex,
    p2: Vertex,
    m: Material,
    width: int,
    height: int,
    old_depth: Seq<i64>,
    old_buffer: Seq<u8>,
) -> Seq<u8> {
    Seq::new(
        old_buffer.len(),
        |k: int| byte_after(p0, p1, p2, m, width, height, old_depth, old_buffer, k),
    )
}

/// Drawing two triangles over a freshly cleared frame leaves the same
/// colour and depth buffers in either order when one is strictly nearer
/// at every pixel both cover: the depth test, not the draw order,
/// decides every cell, and jointly covered pixels show the nearer
/// triangle. Each `fill_triangle` turns the buffers into the pointwise
/// maps of its contract, so the two orders are the two compositions
/// compared here.
pub proof fn lemma_depth_test_buffers_order_independent(
    a0: Vertex,
    a1: Vertex,
    a2: Vertex,
    ma: Material,
    b0: Vertex,
    b1: Vertex,
    b2: Vertex,
    mb: Material,
    w: int,
    h: int,
    depth0: Seq<i64>,
    buffer0: Seq<u8>,
)
    requires
        w >= 1,
        h >= 1,
        depth0.len() == w * h,
        buffer0.len() == w * h * 4,
        forall|i: int| 0 <= i < w * h ==> depth0[i] == DEPTH_INF,
        forall|i: int|
            0 <= i < w * h && pix_covered(a0, a1, a2, w, h, i % w, i / w) ==> 0
                <= #[trigger] pix_depth(a0, a1, a2, i % w, i / w) < DEPTH_INF,
        forall|i: int|
            0 <= i < w * h && pix_covered(b0, b1, b2, w, h, i % w, i / w) ==> 0
                <= #[trigger] pix_depth(b0, b1, b2, i % w, i / w) < DEPTH_INF,
        forall|i: int|
            0 <= i < w * h && pix_covered(a0, a1, a2, w, h, i % w, i / w) && pix_covered(
                b0,
                b1,
                b2,
                w,
                h,
                i % w,
                i / w,
            ) ==> #[trigger] pix_depth(a0, a1, a2, i % w, i / w) < #[trigger] pix_depth(
                b0,
                b1,
                b2,
                i % w,
                i / w,
            ),
    ensures
        buffer_map(
            b0,
            b1,
            b2,
            mb,
            w,
            h,
            depth_map(a0, a1, a2, w, h, depth0),
            buffer_map(a0, a1, a2, ma, w, h, depth0, buffer0),
        ) == buffer_map(
            a0,
            a1,
            a2,
            ma,
            w,
            h,
            depth_map(b0, b1, b2, w, h, depth0),
            buffer_map(b0, b1, b2, mb, w, h, depth0, buffer0),
        ),
        depth_map(b0, b1, b2, w, h, depth_map(a0, a1, a2, w, h, depth0)) == depth_map(
            a0,
            a1,
            a2,
            w,
            h,
            depth_map(b0, b1, b2, w, h, depth0),
        ),
        forall|i: int|
            0 <= i < w * h && pix_covered(a0, a1, a2, w, h, i % w, i / w) && pix_covered(
                b0,
                b1,
                b2,
                w,
                h,
                i % w,
                i / w,
            ) ==> #[trigger] depth_map(
                b0,
                b1,
                b2,
                w,
                h,
                depth_map(a0, a1, a2, w, h, depth0),
            )[i] == pix_depth(a0, a1, a2, i % w, i / w),
{
    let da = depth_map(a0, a1, a2, w, h, depth0);
    let db = depth_map(b0, b1, b2, w, h, depth0);
    let ba = buffer_map(a0, a1, a2, ma, w, h, depth0, buffer0);
    let bb = buffer_map(b0, b1, b2, mb, w, h, depth0, buffer0);
    assert forall|i: int| 0 <= i < w * h implies #[trigger] depth_map(b0, b1, b2, w, h, da)[i]
        == depth_map(a0, a1, a2, w, h, db)[i] && (pix_covered(a0, a1, a2, w, h, i % w, i / w)
        && pix_covered(b0, b1, b2, w, h, i % w, i / w) ==> depth_map(b0, b1, b2, w, h, da)[i]
        == pix_depth(a0, a1, a2, i % w, i / w)) by {
        lemma_rowcol(w, i);
    };
    assert(depth_map(b0, b1, b2, w, h, da) =~= depth_map(a0, a1, a2, w, h, db));
    assert forall|j: int| 0 <= j < w * h * 4 implies #[trigger] buffer_map(
        b0,
        b1,
        b2,
        mb,
        w,
        h,
        da,
        ba,
    )[j] == buffer_map(a0, a1, a2, ma, w, h, db, bb)[j] by {
        vstd::arithmetic::div_mod::lemma_fundamental_div_mod(j, 4);
        vstd::arithmetic::div_mod::lemma_mod_division_less_than_divisor(j, 4);
        let pj = j / 4;
        assert(0 <= pj < w * h) by (nonlinear_arith)
            requires
                0 <= j < w * h * 4,
                j == 4 * pj + j % 4,
                0 <= j % 4 < 4,
        ;
        lemma_rowcol(w, pj);
    };
    assert(buffer_map(b0, b1, b2, mb, w, h, da, ba) =~= buffer_map(a0, a1, a2, ma, w, h, db, bb));
}


/// A triangle the rasterizer accepts writes at least one pixel when its
/// first vertex lies on screen: on a freshly cleared frame, that
/// vertex's own pixel is covered, the perspective-correct interpolation
/// is exact there — the depth comes out as the vertex's own depth, under
/// the cleared infinity — and the drawn colour buffer holds the
/// material's colour at that pixel.
pub proof fn lemma_front_face_writes(
    p0: Vertex,
    p1: Vertex,
    p2: Vertex,
    m: Material,
    w: int,
    h: int,
    depth0: Seq<i64>,
    buffer0: Seq<u8>,
)
    requires
        w >= 1,
        h >= 1,
        depth0.len() == w * h,
        buffer0.len() == w * h * 4,
        forall|i: int| 0 <= i < w * h ==> depth0[i] == DEPTH_INF,
        !tri_skipped(p0, p1, p2),
        0 <= px_x(p0) < w,
        0 <= px_y(p0) < h,
    ensures
        ({
            let x = px_x(p0);
            let y = px_y(p0);
            let idx = y * w + x;
            &&& pix_covered(p0, p1, p2, w, h, x, y)
            &&& pix_depth(p0, p1, p2, x, y) == p0.z
            &&& depth_map(p0, p1, p2, w, h, depth0)[idx] == p0.z
            &&& p0.z != DEPTH_INF
            &&& buffer_map(p0, p1, p2, m, w, h, depth0, buffer0)[4 * idx] == pix_colour(
                p0,
                p1,
                p2,
                m,
                x,
                y,
            ).red
        }),
{
    let x = px_x(p0);
    let y = px_y(p0);
    let x0 = px_x(p0);
    let y0 = px_y(p0);
    let x1 = px_x(p1);
    let y1 = px_y(p1);
    let x2 = px_x(p2);
    let y2 = px_y(p2);
    assert(pix_w1(p0, p1, p2, x, y) == 0) by (nonlinear_arith)
        requires
            pix_w1(p0, p1, p2, x, y) == (x0 - x2) * (y0 - y2) - (y0 - y2) * (x0 - x2),
    ;
    assert(pix_w2(p0, p1, p2, x, y) == 0) by (nonlinear_arith)
        requires
            pix_w2(p0, p1, p2, x, y) == (x0 - x0) * (y1 - y0) - (y0 - y0) * (x1 - x0),
    ;
    lemma_edge_sum(p0, p1, p2, x, y);
    assert(pix_w0(p0, p1, p2, x, y) == tri_area(p0, p1, p2));
    assert(pix_covered(p0, p1, p2, w, h, x, y));
    let na = nw0(p0, p1, p2, x, y);
    let zz12 = p1.z * p2.z;
    assert(na >= 1);
    assert(zz12 >= 1 && na * zz12 >= 1) by (nonlinear_arith)
        requires
            p1.z >= 1,
            p2.z >= 1,
            na >= 1,
            zz12 == p1.z * p2.z,
    ;
    assert(nw1(p0, p1, p2, x, y) == 0 && nw2(p0, p1, p2, x, y) == 0);
    assert(pix_den(p0, p1, p2, x, y) == na * zz12) by (nonlinear_arith)
        requires
            pix_den(p0, p1, p2, x, y) == na * (p1.z * p2.z) + 0 * (p0.z * p2.z) + 0 * (p0.z
                * p1.z),
            zz12 == p1.z * p2.z,
    ;
    assert((na + 0 + 0) * (p0.z * p1.z * p2.z) == (na * zz12) * p0.z) by (nonlinear_arith)
        requires
            zz12 == p1.z * p2.z,
    ;
    crate::fixed::lemma_tdiv_cancel(p0.z as int, na * zz12);
    assert(pix_depth(p0, p1, p2, x, y) == p0.z);
    let idx = y * w + x;
    lemma_cell_index(w, y, x);
    assert(0 <= idx < w * h && 4 * idx + 3 < w * h * 4) by (nonlinear_arith)
        requires
            idx == y * w + x,
            0 <= x < w,
            0 <= y < h,
    ;
    assert(pix_drawn(p0, p1, p2, w, h, depth0, idx));
    vstd::arithmetic::div_mod::lemma_fundamental_div_mod_converse_div(4 * idx, 4, idx, 0);
    vstd::arithmetic::div_mod::lemma_fundamental_div_mod_converse_mod(4 * idx, 4, idx, 0);
}

} // verus!






