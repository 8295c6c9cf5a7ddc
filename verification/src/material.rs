//! A material: a name, a flat diffuse colour, and an optional texture.
//!
//! Names are kept as the byte strings read from the material library.
//! The rasterizer shades through one lookup function: `shade` samples the
//! texture when one is present and falls back to the diffuse colour.

use vstd::prelude::*;

verus! {

use crate::colour::Colour;
use crate::texture::Texture;

#[derive(Clone, Debug)]
pub struct Material {
    pub name: Vec<u8>,
    pub diffuse: Colour,
    pub kd_texture: Option<Texture>,
}

impl Material {
    /// If the material carries a texture, that texture is well formed.
    pub open spec fn well_formed(self) -> bool {
        match self.kd_texture {
            Some(t) => t.well_formed(),
            None => true,
        }
    }

    /// The colour `shade` returns at a texture coordinate.
    pub open spec fn shade_spec(self, u: int, v: int) -> Colour {
        match self.kd_texture {
            Some(t) => t.sample_spec(u, v),
            None => self.diffuse,
        }
    }

    /// The colour of this material at a fixed-point texture coordinate:
    /// the sampled texture when one is present, else the diffuse colour.
    pub fn shade(&self, u: i64, v: i64) -> (c: Colour)
        requires
            self.well_formed(),
        ensures
            c == self.shade_spec(u as int, v as int),
    {
        match &self.kd_texture {
            Some(t) => t.sample(u, v),
            None => self.diffuse,
        }
    }
}

impl Default for Material {
    /// The default material: an empty name, fully opaque white, no
    /// texture.
    fn default() -> (m: Material)
        ensures
            m.name@ == Seq::<u8>::empty(),
            m.diffuse == (Colour { red: 255, green: 255, blue: 255, alpha: 255 }),
            m.kd_texture is None,
            m.well_formed(),
    {
        Material {
            name: Vec::new(),
            diffuse: Colour { red: 255, green: 255, blue: 255, alpha: 255 },
            kd_texture: None,
        }
    }
}

} // verus!
