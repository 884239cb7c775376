//! Sprite records: fixed-format raster images embedded in ROM. A record
//! at address `a` is `u16 width | u16 height | width*height*4` bytes of
//! RGBA8888 raster data, row-major, all integers big-endian.

use vstd::prelude::*;
use crate::bytes::{be16_at, be16_read, be32_at};

verus! {

/// Mathematical model of a decoded sprite.
#[verifier::ext_equal]
pub struct SpriteData {
    pub width: u16,
    pub height: u16,
    pub rgba: Seq<u8>,
}

/// A decoded sprite: dimensions plus its raw RGBA8888 raster bytes.
pub struct Sprite {
    pub width: u16,
    pub height: u16,
    pub rgba: Vec<u8>,
}

impl View for Sprite {
    type V = SpriteData;

    open spec fn view(&self) -> SpriteData {
        SpriteData { width: self.width, height: self.height, rgba: self.rgba@ }
    }
}

impl SpriteData {
    /// The raster holds exactly four bytes per pixel.
    pub open spec fn wf(self) -> bool {
        self.rgba.len() == self.width * self.height * 4
    }

    /// The RGBA8888 color of pixel (`x`, `y`), packed big-endian into a
    /// 32-bit value.
    pub open spec fn pixel(self, x: int, y: int) -> u32 {
        be32_at(self.rgba, (y * self.width + x) * 4)
    }
}

/// Whether a whole sprite record fits in ROM at address `a`: the header
/// and the raster it announces.
pub open spec fn sprite_decodable(rom: Seq<u8>, a: int) -> bool {
    &&& 0 <= a
    &&& a + 4 <= rom.len()
    &&& a + 4 + be16_at(rom, a) * be16_at(rom, a + 2) * 4 <= rom.len()
}

/// The sprite record at ROM address `a`: width, height, then the raster
/// bytes read sequentially.
pub open spec fn sprite_decode(rom: Seq<u8>, a: int) -> SpriteData {
    SpriteData {
        width: be16_at(rom, a),
        height: be16_at(rom, a + 2),
        rgba: rom.subrange(a + 4, a + 4 + be16_at(rom, a) * be16_at(rom, a + 2) * 4),
    }
}

impl Sprite {
    /// Width in pixels.
    pub fn width(&self) -> (r: u16)
        ensures
            r == self@.width,
    {
        self.width
    }

    /// Height in pixels.
    pub fn height(&self) -> (r: u16)
        ensures
            r == self@.height,
    {
        self.height
    }

    /// Decode the sprite record at ROM address `a`.
    pub fn decode(rom: &Vec<u8>, a: u32) -> (r: Sprite)
        requires
            sprite_decodable(rom@, a as int),
        ensures
            r@ == sprite_decode(rom@, a as int),
    {
        let rom_len: usize = rom.len();
        let w: u16 = be16_read(rom, a as usize);
        let h: u16 = be16_read(rom, a as usize + 2);
        assert(w as int * h as int * 4 <= rom@.len());
        assert(0 <= w as int * h as int <= w as int * h as int * 4) by (nonlinear_arith);
        let n: usize = (w as usize) * (h as usize) * 4;
        let base: usize = a as usize + 4;
        let mut rgba: Vec<u8> = Vec::new();
        let mut k: usize = 0;
        while k < n
            invariant
                k <= n,
                base + n <= rom.len(),
                rgba@ == rom@.subrange(base as int, base + k),
            decreases n - k,
        {
            rgba.push(rom[base + k]);
            assert(rgba@ =~= rom@.subrange(base as int, base + k + 1));
            k += 1;
        }
        let r = Sprite { width: w, height: h, rgba };
        assert(r@ =~= sprite_decode(rom@, a as int));
        r
    }
}

} // verus!
