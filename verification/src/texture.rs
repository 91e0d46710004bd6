//! Texture lookups that need no arithmetic on coordinates: the texels of a
//! decoded image.

use crate::code::ONE;
use crate::vec3::{Color, Vec3};
use vstd::prelude::*;

verus! {

/// Which of the two textures of a checker pattern shows at a point, given
/// the product of the sines of its scaled coordinates: the odd one where
/// the product is below zero.
pub fn checker_is_odd(sines: i64) -> (r: bool)
    ensures
        r == (sines < 0),
{
    sines < 0
}

/// The number of samples that make up a texel.
pub const BYTES_PER_PIXEL: usize = 3;

/// A decoded image: rows from the top, texels from the left, three samples
/// (red, green, blue) to a texel.
pub struct ImageTexture {
    data: Vec<u8>,
    width: usize,
    height: usize,
    bytes_per_scanline: usize,
}

/// What a lookup in an image gives.
#[derive(Clone, Copy, Debug, PartialEq, Eq, Structural)]
pub enum Texel {
    /// The red, green and blue samples of a texel, each out of 255.
    Samples(u8, u8, u8),
    /// A colour as it stands.
    Color(Color),
}

/// The colour that shows where an image has no data: cyan, so that the
/// fault is seen.
pub open spec fn spec_debug_color() -> Color {
    Vec3 { x: 0, y: ONE, z: ONE }
}

/// The raster of `width` by `height` texels fills `len` samples exactly,
/// and the length of a row fits the machine word.
pub open spec fn spec_fits(len: nat, width: usize, height: usize) -> bool {
    BYTES_PER_PIXEL * width <= usize::MAX && len == BYTES_PER_PIXEL * width * height
}

impl ImageTexture {
    #[verifier::type_invariant]
    spec fn consistent(self) -> bool {
        &&& self.bytes_per_scanline == BYTES_PER_PIXEL * self.width
        &&& self.data@.len() == self.bytes_per_scanline * self.height
    }

    pub closed spec fn data(self) -> Seq<u8> {
        self.data@
    }

    pub closed spec fn width(self) -> usize {
        self.width
    }

    pub closed spec fn height(self) -> usize {
        self.height
    }

    /// The column or row that a lookup at `i` uses, where there are `n` of
    /// them: `i` itself, or the last one where `i` lies beyond it.
    pub open spec fn spec_clamp(i: usize, n: usize) -> int {
        if i >= n {
            n - 1
        } else {
            i as int
        }
    }

    /// What a lookup at column `i`, row `j` gives: without data the debug
    /// colour, else the samples of the texel. Positions beyond the last
    /// column or row are taken to be in it.
    pub open spec fn spec_value(self, i: usize, j: usize) -> Texel {
        if self.data().len() == 0 {
            Texel::Color(spec_debug_color())
        } else {
            let at = Self::spec_clamp(j, self.height()) * (BYTES_PER_PIXEL * self.width())
                + Self::spec_clamp(i, self.width()) * BYTES_PER_PIXEL;
            Texel::Samples(self.data()[at], self.data()[at + 1], self.data()[at + 2])
        }
    }

    /// Takes over a decoded raster. The samples must fill the raster of
    /// `width` by `height` texels exactly; else there is no texture.
    pub fn new(data: Vec<u8>, width: usize, height: usize) -> (r: Option<Self>)
        ensures
            r is Some <==> spec_fits(data@.len(), width, height),
            r matches Some(t) ==> t.data() == data@ && t.width() == width && t.height() == height,
    {
        let bytes_per_scanline = match BYTES_PER_PIXEL.checked_mul(width) {
            Some(n) => n,
            None => {
                return None;
            },
        };
        let len = data.len();
        if height == 0 {
            assert(BYTES_PER_PIXEL * width * height == 0) by (nonlinear_arith)
                requires
                    height == 0,
            ;
            if len == 0 {
                return Some(ImageTexture { data, width, height, bytes_per_scanline });
            }
            return None;
        }
        assert(BYTES_PER_PIXEL * width * height == bytes_per_scanline * height);
        match bytes_per_scanline.checked_mul(height) {
            Some(n) => if len == n {
                Some(ImageTexture { data, width, height, bytes_per_scanline })
            } else {
                None
            },
            None => None,
        }
    }

    /// The texel at column `i`, row `j`, or solid cyan if the texture has
    /// no data.
    pub fn value(&self, i: usize, j: usize) -> (r: Texel)
        ensures
            r == self.spec_value(i, j),
    {
        proof {
            use_type_invariant(self);
        }
        if self.data.len() == 0 {
            return Texel::Color(Vec3::new(0, ONE, ONE));
        }
        let mut i = i;
        let mut j = j;
        assert(self.width > 0 && self.height > 0) by (nonlinear_arith)
            requires
                self.data@.len() > 0,
                self.data@.len() == (BYTES_PER_PIXEL * self.width) * self.height,
        ;
        if i >= self.width {
            i = self.width - 1;
        }
        if j >= self.height {
            j = self.height - 1;
        }
        assert(j * (BYTES_PER_PIXEL * self.width) + i * BYTES_PER_PIXEL + 2 < (BYTES_PER_PIXEL
            * self.width) * self.height) by (nonlinear_arith)
            requires
                i < self.width,
                j < self.height,
        ;
        assert(j * (BYTES_PER_PIXEL * self.width) >= 0 && i * BYTES_PER_PIXEL >= 0)
            by (nonlinear_arith);
        let index = j * self.bytes_per_scanline + i * BYTES_PER_PIXEL;
        Texel::Samples(self.data[index], self.data[index + 1], self.data[index + 2])
    }
}

} // verus!
