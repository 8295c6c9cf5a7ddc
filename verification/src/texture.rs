//! A texture: a row-major grid of colours, sampled by nearest pixel.

use vstd::prelude::*;

verus! {

use crate::colour::Colour;
use crate::fixed::SCALE;
use crate::fixed::clamp_unit;
use crate::fixed::clamp_unit_of;
use vstd::arithmetic::div_mod::lemma_div_multiples_vanish;
use vstd::arithmetic::div_mod::lemma_div_pos_is_pos;
use vstd::arithmetic::div_mod::lemma_multiply_divide_le;

/// The widest texture side the sampler accepts.
pub const MAX_TEXTURE_SIDE: usize = 32768;

#[derive(Clone, Debug)]
pub struct Texture {
    pub width: usize,
    pub height: usize,
    pub data: Vec<Colour>,
}

impl Texture {
    /// Both sides are at least one pixel and bounded, and the pixel array
    /// holds exactly one colour per grid cell.
    pub open spec fn well_formed(self) -> bool {
        &&& 1 <= self.width <= MAX_TEXTURE_SIDE
        &&& 1 <= self.height <= MAX_TEXTURE_SIDE
        &&& self.data@.len() == self.width * self.height
    }

    /// The column a clamped `u` in `[0, SCALE]` selects.
    pub open spec fn column_of(self, u: int) -> int {
        (clamp_unit(u) * (self.width - 1)) / (SCALE as int)
    }

    /// The row a clamped `v` selects. The sampler flips V and at the
    /// lookup flips it back, because the loader already flipped the
    /// stored coordinate once; the two cancel, so the formula reads row
    /// `v * (height - 1)` scaled down.
    pub open spec fn row_of(self, v: int) -> int {
        let flipped = SCALE as int - clamp_unit(v);
        ((SCALE as int - flipped) * (self.height - 1)) / (SCALE as int)
    }

    /// The colour `sample` returns: the nearest pixel to the clamped
    /// texture coordinate.
    pub open spec fn sample_spec(self, u: int, v: int) -> Colour {
        self.data@[self.row_of(v) * self.width + self.column_of(u)]
    }

    /// Sample the texture at a fixed-point coordinate pair: clamp both
    /// components into `[0, SCALE]`, flip V, and look the nearest pixel up.
    pub fn sample(&self, u: i64, v: i64) -> (c: Colour)
        requires
            self.well_formed(),
        ensures
            c == self.sample_spec(u as int, v as int),
    {
        let uc: i64 = clamp_unit_of(u);
        let vc: i64 = clamp_unit_of(v);
        let flipped: i64 = 65536 - vc;
        proof {
            assert((uc as int) * (self.width - 1) <= 65536 * (MAX_TEXTURE_SIDE as int)
                && (65536 - flipped as int) * (self.height - 1) <= 65536 * (
            MAX_TEXTURE_SIDE as int)) by (nonlinear_arith)
                requires
                    0 <= uc as int <= 65536,
                    0 <= 65536 - flipped as int <= 65536,
                    0 <= self.width - 1 < MAX_TEXTURE_SIDE as int,
                    0 <= self.height - 1 < MAX_TEXTURE_SIDE as int,
            ;
        }
        let x: usize = ((uc as u64) * ((self.width - 1) as u64) / 65536) as usize;
        let y: usize = (((65536 - flipped) as u64) * ((self.height - 1) as u64) / 65536) as usize;
        proof {
            lemma_grid_cell(uc as int, self.width as int);
            lemma_grid_cell(65536 - flipped as int, self.height as int);
            assert(y * self.width + x < self.width * self.height && y * self.width + x
                < 0x4000_0000) by (nonlinear_arith)
                requires
                    0 <= x <= self.width - 1,
                    0 <= y <= self.height - 1,
                    1 <= self.width <= MAX_TEXTURE_SIDE,
                    1 <= self.height <= MAX_TEXTURE_SIDE,
            ;
        }
        self.data[y * self.width + x]
    }
}

/// A clamped coordinate scaled onto `side` pixels lands on a valid index.
proof fn lemma_grid_cell(c: int, side: int)
    requires
        0 <= c <= SCALE as int,
        1 <= side <= MAX_TEXTURE_SIDE as int,
    ensures
        0 <= (c * (side - 1)) / (SCALE as int) <= side - 1,
{
    assert(0 <= c * (side - 1) <= (SCALE as int) * (side - 1)) by (nonlinear_arith)
        requires
            0 <= c <= SCALE as int,
            1 <= side,
    ;
    lemma_div_pos_is_pos(c * (side - 1), SCALE as int);
    lemma_multiply_divide_le(c * (side - 1), SCALE as int, side - 1);
}

/// Sampling at the corners of the unit square reads the texture's corner
/// pixels: `(0, 0)` the first pixel of the first row, `(1, 1)` the last
/// pixel of the last row, whatever the texture's size.
pub proof fn lemma_sample_corners(t: Texture)
    requires
        t.well_formed(),
    ensures
        t.sample_spec(0, 0) == t.data@[0],
        t.sample_spec(SCALE as int, SCALE as int) == t.data@[(t.height - 1) * t.width + (
        t.width - 1)],
{
    assert(clamp_unit(0) == 0 && clamp_unit(SCALE as int) == SCALE as int);
    assert(0int * (t.width - 1) == 0 && 0int * (t.height - 1) == 0) by (nonlinear_arith);
    assert(0int / (SCALE as int) == 0) by {
        vstd::arithmetic::div_mod::lemma_div_of0(SCALE as int);
    }
    assert(((SCALE as int) * (t.width - 1)) / (SCALE as int) == t.width - 1) by {
        lemma_div_multiples_vanish(t.width - 1, SCALE as int);
    }
    assert(((SCALE as int) * (t.height - 1)) / (SCALE as int) == t.height - 1) by {
        lemma_div_multiples_vanish(t.height - 1, SCALE as int);
    }
    assert(t.row_of(0) * t.width == 0) by (nonlinear_arith)
        requires
            t.row_of(0) == 0,
    ;
}

/// The colour of a checkerboard cell: white and black squares of eight
/// pixels a side.
pub open spec fn checker_colour(x: int, y: int) -> Colour {
    if (x / 8 + y / 8) % 2 == 0 {
        Colour { red: 255, green: 255, blue: 255, alpha: 255 }
    } else {
        Colour { red: 0, green: 0, blue: 0, alpha: 255 }
    }
}

/// The colour of the diagnostic gradient at a cell: red grows with the
/// column, green with the row. A single-cell side paints black.
pub open spec fn debug_colour(x: int, y: int, size: int) -> Colour {
    if size <= 1 {
        Colour { red: 0, green: 0, blue: 0, alpha: 255 }
    } else {
        Colour {
            red: ((x * 255) / (size - 1)) as u8,
            green: ((y * 255) / (size - 1)) as u8,
            blue: 0,
            alpha: 255,
        }
    }
}

impl Texture {
    /// A square checkerboard texture.
    pub fn checkerboard(size: usize) -> (t: Texture)
        requires
            1 <= size <= MAX_TEXTURE_SIDE,
        ensures
            t.well_formed(),
            t.width == size,
            t.height == size,
            forall|y: int, x: int|
                0 <= y < size && 0 <= x < size ==> t.data@[y * size + x]
                    == #[trigger] checker_colour(x, y),
    {
        let mut pixels: Vec<Colour> = Vec::new();
        let mut y: usize = 0;
        while y < size
            invariant
                0 <= y <= size,
                size <= MAX_TEXTURE_SIDE,
                pixels@.len() == y * size,
                forall|j: int, i: int|
                    0 <= j < y && 0 <= i < size ==> pixels@[j * size + i]
                        == #[trigger] checker_colour(i, j),
            decreases size - y,
        {
            let mut x: usize = 0;
            while x < size
                invariant
                    0 <= x <= size,
                    0 <= y < size,
                    size <= MAX_TEXTURE_SIDE,
                    pixels@.len() == y * size + x,
                    forall|j: int, i: int|
                        0 <= j < y && 0 <= i < size ==> pixels@[j * size + i]
                            == #[trigger] checker_colour(i, j),
                    forall|i: int|
                        0 <= i < x ==> pixels@[y * size + i] == #[trigger] checker_colour(i, y as int),
                decreases size - x,
            {
                let c = if (x / 8 + y / 8) % 2 == 0 {
                    Colour { red: 255, green: 255, blue: 255, alpha: 255 }
                } else {
                    Colour { red: 0, green: 0, blue: 0, alpha: 255 }
                };
                proof {
                    lemma_row_major_fits(y as int, x as int, size as int);
                }
                pixels.push(c);
                proof {
                    assert forall|j: int, i: int|
                        0 <= j < y && 0 <= i < size implies pixels@[j * size + i]
                        == #[trigger] checker_colour(i, j) by {
                        lemma_row_major_below(j, i, y as int, size as int);
                    };
                }
                x = x + 1;
            }
            proof {
                lemma_row_step(y as int, size as int);
            }
            y = y + 1;
        }
        Texture { width: size, height: size, data: pixels }
    }

    /// A square diagnostic gradient texture.
    pub fn debug(size: usize) -> (t: Texture)
        requires
            1 <= size <= MAX_TEXTURE_SIDE,
        ensures
            t.well_formed(),
            t.width == size,
            t.height == size,
            forall|y: int, x: int|
                0 <= y < size && 0 <= x < size ==> t.data@[y * size + x]
                    == #[trigger] debug_colour(x, y, size as int),
    {
        let mut pixels: Vec<Colour> = Vec::new();
        let mut y: usize = 0;
        while y < size
            invariant
                0 <= y <= size,
                size <= MAX_TEXTURE_SIDE,
                pixels@.len() == y * size,
                forall|j: int, i: int|
                    0 <= j < y && 0 <= i < size ==> pixels@[j * size + i]
                        == #[trigger] debug_colour(i, j, size as int),
            decreases size - y,
        {
            let mut x: usize = 0;
            while x < size
                invariant
                    0 <= x <= size,
                    0 <= y < size,
                    size <= MAX_TEXTURE_SIDE,
                    pixels@.len() == y * size + x,
                    forall|j: int, i: int|
                        0 <= j < y && 0 <= i < size ==> pixels@[j * size + i]
                            == #[trigger] debug_colour(i, j, size as int),
                    forall|i: int|
                        0 <= i < x ==> pixels@[y * size + i] == #[trigger] debug_colour(
                            i,
                            y as int,
                            size as int,
                        ),
                decreases size - x,
            {
                let c = if size == 1 {
                    Colour { red: 0, green: 0, blue: 0, alpha: 255 }
                } else {
                    proof {
                        lemma_channel_byte(x as int, size as int);
                        lemma_channel_byte(y as int, size as int);
                    }
                    let r = ((x as u64) * 255 / ((size - 1) as u64)) as u8;
                    let g = ((y as u64) * 255 / ((size - 1) as u64)) as u8;
                    Colour { red: r, green: g, blue: 0, alpha: 255 }
                };
                proof {
                    lemma_row_major_fits(y as int, x as int, size as int);
                }
                pixels.push(c);
                proof {
                    assert forall|j: int, i: int|
                        0 <= j < y && 0 <= i < size implies pixels@[j * size + i]
                        == #[trigger] debug_colour(i, j, size as int) by {
                        lemma_row_major_below(j, i, y as int, size as int);
                    };
                }
                x = x + 1;
            }
            proof {
                lemma_row_step(y as int, size as int);
            }
            y = y + 1;
        }
        Texture { width: size, height: size, data: pixels }
    }
}

/// A cell coordinate scaled onto the byte range stays a byte.
proof fn lemma_channel_byte(x: int, size: int)
    requires
        0 <= x < size,
        2 <= size,
    ensures
        0 <= (x * 255) / (size - 1) <= 255,
{
    assert(0 <= x * 255 <= (size - 1) * 255) by (nonlinear_arith)
        requires
            0 <= x <= size - 1,
    ;
    lemma_div_pos_is_pos(x * 255, size - 1);
    lemma_multiply_divide_le(x * 255, size - 1, 255);
}

/// A row-major index from an earlier row lies below the current rows' end.
proof fn lemma_row_major_below(j: int, i: int, y: int, size: int)
    requires
        0 <= j < y,
        0 <= i < size,
    ensures
        0 <= j * size + i,
        j * size + i < y * size,
{
    assert(0 <= j * size + i && j * size + i < y * size) by (nonlinear_arith)
        requires
            0 <= j < y,
            0 <= i < size,
    ;
}

proof fn lemma_row_major_fits(y: int, x: int, size: int)
    requires
        0 <= y < size,
        0 <= x < size,
        size <= MAX_TEXTURE_SIDE as int,
    ensures
        0 <= y * size + x < size * size,
        size * size <= MAX_TEXTURE_SIDE as int * MAX_TEXTURE_SIDE as int,
{
    assert(0 <= y * size + x < size * size && size * size <= MAX_TEXTURE_SIDE as int
        * MAX_TEXTURE_SIDE as int) by (nonlinear_arith)
        requires
            0 <= y < size,
            0 <= x < size,
            size <= MAX_TEXTURE_SIDE as int,
    ;
}

proof fn lemma_row_step(y: int, size: int)
    ensures
        y * size + size == (y + 1) * size,
{
    assert(y * size + size == (y + 1) * size) by (nonlinear_arith);
}


/// What decoding the bytes of an image file yields: the pixel
/// dimensions and the raw row-major RGBA buffer, four bytes per pixel,
/// or nothing when the bytes are not a decodable image. The decode
/// depends on the bytes alone.
pub uninterp spec fn rgba_of(bytes: Seq<u8>) -> Option<(u32, u32, Seq<u8>)>;

/// Relies on image::load_from_memory, DynamicImage::to_rgba8 and
/// ImageBuffer::into_raw: decoding an image gives its pixel dimensions
/// and a raw buffer of exactly four bytes per pixel, row-major in
/// red, green, blue, alpha order, and depends on the bytes alone.
#[verifier::external_body]
fn decode_rgba(bytes: &Vec<u8>) -> (r: Result<(u32, u32, Vec<u8>), ()>)
    ensures
        match r {
            Ok((w, h, data)) => rgba_of(bytes@) == Some((w, h, data@)) && data@.len() == w * h
                * 4,
            Err(()) => rgba_of(bytes@) is None,
        },
{
    match image::load_from_memory(bytes.as_slice()) {
        Ok(img) => {
            let rgba = img.to_rgba8();
            let (w, h) = rgba.dimensions();
            Ok((w, h, rgba.into_raw()))
        },
        Err(_) => Err(()),
    }
}

/// The texture a decoded RGBA buffer fills: dimensions kept, one colour
/// per pixel read off four consecutive bytes.
pub open spec fn texture_of_rgba(t: Texture, w: u32, h: u32, d: Seq<u8>) -> bool {
    &&& t.width == w
    &&& t.height == h
    &&& t.data@.len() == w * h
    &&& forall|i: int|
        0 <= i < t.data@.len() ==> #[trigger] t.data@[i] == (Colour {
            red: d[4 * i],
            green: d[4 * i + 1],
            blue: d[4 * i + 2],
            alpha: d[4 * i + 3],
        })
}

impl Texture {
    /// Decode the bytes of an image file into a texture holding exactly
    /// the decoded dimensions and pixels. Reading the file is the
    /// caller's business; a failed decode or a size outside the accepted
    /// range reports a texture failure, and nothing else does.
    pub fn from_file(bytes: &Vec<u8>) -> (r: Result<Texture, crate::loader::LoadError>)
        ensures
            match rgba_of(bytes@) {
                Some((w, h, d)) => if 1 <= w <= MAX_TEXTURE_SIDE && 1 <= h <= MAX_TEXTURE_SIDE {
                    match r {
                        Ok(t) => texture_of_rgba(t, w, h, d) && t.well_formed(),
                        Err(_) => false,
                    }
                } else {
                    r == Err::<Texture, _>(crate::loader::LoadError::TextureDecodeFailure)
                },
                None => r == Err::<Texture, _>(crate::loader::LoadError::TextureDecodeFailure),
            },
    {
        let (w, h, data) = match decode_rgba(bytes) {
            Ok(t) => t,
            Err(()) => {
                return Err(crate::loader::LoadError::TextureDecodeFailure);
            },
        };
        if w < 1 || w > 32768 || h < 1 || h > 32768 {
            return Err(crate::loader::LoadError::TextureDecodeFailure);
        }
        let wu = w as usize;
        let hu = h as usize;
        proof {
            assert(wu * hu <= 32768 * 32768 && (w as int * (h as int)) * 4 == 4 * (wu * hu)
                && wu * hu >= 0) by (nonlinear_arith)
                requires
                    1 <= wu <= 32768,
                    1 <= hu <= 32768,
                    wu == w as int,
                    hu == h as int,
            ;
        }
        let n: usize = wu * hu;
        let mut pixels: Vec<Colour> = Vec::new();
        let mut i: usize = 0;
        while i < n
            invariant
                i <= n <= 0x4000_0000,
                data@.len() == 4 * n,
                pixels@.len() == i,
                forall|k: int|
                    0 <= k < i ==> #[trigger] pixels@[k] == (Colour {
                        red: data@[4 * k],
                        green: data@[4 * k + 1],
                        blue: data@[4 * k + 2],
                        alpha: data@[4 * k + 3],
                    }),
            decreases n - i,
        {
            pixels.push(
                Colour {
                    red: data[4 * i],
                    green: data[4 * i + 1],
                    blue: data[4 * i + 2],
                    alpha: data[4 * i + 3],
                },
            );
            i = i + 1;
        }
        Ok(Texture { width: wu, height: hu, data: pixels })
    }
}

} // verus!
