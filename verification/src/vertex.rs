//! A vertex: a position in space with a texture coordinate.
//!
//! All five fields are fixed-point scalars (see `fixed`).

use vstd::prelude::*;

verus! {

use crate::fixed::SCALE;
use crate::fixed::iabs;
use crate::fixed::isqrt;
use crate::fixed::tdiv;
use crate::fixed::tdiv128;

#[derive(Clone, Copy, PartialEq, Eq, Structural, Debug)]
pub struct Vertex {
    pub x: i64,
    pub y: i64,
    pub z: i64,
    pub u: i64,
    pub v: i64,
}

/// The squared length of the position part of a vertex.
pub open spec fn mag2(v: Vertex) -> int {
    v.x * v.x + v.y * v.y + v.z * v.z
}

/// The position coordinates all have magnitude at most `m`.
pub open spec fn coords_bounded(v: Vertex, m: int) -> bool {
    iabs(v.x as int) <= m && iabs(v.y as int) <= m && iabs(v.z as int) <= m
}

/// `len` is the integer square root of `n`.
pub open spec fn is_isqrt(len: int, n: int) -> bool {
    0 <= len && len * len <= n && n < (len + 1) * (len + 1)
}

/// `r` is `v` with its position divided by `len`, the integer square root
/// of the squared length of `v`; a zero length gives the zero position.
pub open spec fn normalized_by(v: Vertex, r: Vertex, len: int) -> bool {
    &&& is_isqrt(len, mag2(v))
    &&& if len == 0 {
        r.x == 0 && r.y == 0 && r.z == 0
    } else {
        &&& r.x == tdiv(v.x * SCALE, len)
        &&& r.y == tdiv(v.y * SCALE, len)
        &&& r.z == tdiv(v.z * SCALE, len)
    }
    &&& r.u == v.u
    &&& r.v == v.v
}

impl Vertex {
    pub fn new(x: i64, y: i64, z: i64, u: i64, v: i64) -> (r: Vertex)
        ensures
            r == (Vertex { x, y, z, u, v }),
    {
        Vertex { x, y, z, u, v }
    }

    /// The position scaled to length one (as a fixed-point scalar), by the
    /// integer square root of the squared length; a zero position stays
    /// zero, and the texture coordinate is kept.
    pub fn normalize(&self) -> (r: Vertex)
        requires
            coords_bounded(*self, 0x4000_0000_0000_0000),
        ensures
            r.u == self.u,
            r.v == self.v,
            exists|len: int| #[trigger] normalized_by(*self, r, len),
    {
        proof {
            assert(self.x * self.x <= 0x4000_0000_0000_0000 * 0x4000_0000_0000_0000
                && self.x * self.x >= 0 && self.y * self.y <= 0x4000_0000_0000_0000
                * 0x4000_0000_0000_0000 && self.y * self.y >= 0 && self.z * self.z
                <= 0x4000_0000_0000_0000 * 0x4000_0000_0000_0000 && self.z * self.z
                >= 0) by (nonlinear_arith)
                requires
                    coords_bounded(*self, 0x4000_0000_0000_0000),
            ;
        }
        let xx: u128 = ((self.x as i128) * (self.x as i128)) as u128;
        let yy: u128 = ((self.y as i128) * (self.y as i128)) as u128;
        let zz: u128 = ((self.z as i128) * (self.z as i128)) as u128;
        let m2: u128 = xx + yy + zz;
        proof {
            assert(m2 as int == mag2(*self));
        }
        let len: u64 = isqrt(m2);
        if len == 0 {
            proof {
                assert((m2 as int) < 1) by (nonlinear_arith)
                    requires
                        len as int == 0,
                        (m2 as int) < ((len as int) + 1) * ((len as int) + 1),
                ;
                assert(mag2(*self) == 0);
                assert(self.x == 0 && self.y == 0 && self.z == 0) by (nonlinear_arith)
                    requires
                        self.x * self.x + self.y * self.y + self.z * self.z == 0,
                ;
            }
            let r = Vertex { x: 0, y: 0, z: 0, u: self.u, v: self.v };
            proof {
                assert(normalized_by(*self, r, len as int));
            }
            r
        } else {
            proof {
                lemma_norm_fits(self.x as int, len as int, mag2(*self));
                lemma_norm_fits(self.y as int, len as int, mag2(*self));
                lemma_norm_fits(self.z as int, len as int, mag2(*self));
            }
            let nx = tdiv128((self.x as i128) * 65536, len as i128) as i64;
            let ny = tdiv128((self.y as i128) * 65536, len as i128) as i64;
            let nz = tdiv128((self.z as i128) * 65536, len as i128) as i64;
            let r = Vertex { x: nx, y: ny, z: nz, u: self.u, v: self.v };
            proof {
                assert(normalized_by(*self, r, len as int));
            }
            r
        }
    }
}

/// A coordinate divided by the integer square root of a squared length that
/// includes its own square never exceeds `SCALE` in magnitude.
proof fn lemma_norm_fits(x: int, len: int, m2: int)
    requires
        len >= 1,
        len * len <= m2,
        m2 < (len + 1) * (len + 1),
        x * x <= m2,
    ensures
        iabs(tdiv(x * SCALE, len)) <= 2 * SCALE,
{
    assert(iabs(x) <= 2 * len) by (nonlinear_arith)
        requires
            len >= 1,
            x * x <= m2,
            m2 < (len + 1) * (len + 1),
    ;
    assert(iabs(x * SCALE) <= (2 * SCALE) * len) by (nonlinear_arith)
        requires
            iabs(x) <= 2 * len,
            len >= 1,
    ;
    crate::fixed::lemma_tdiv_bound(x * SCALE, len, 2 * SCALE);
}

} // verus!
