//! The double-buffered drawing surface. Two off-screen pixel surfaces of
//! fixed resolution; a "current" selector names the surface being
//! presented, and every pixel or sprite write targets the other one
//! (back-buffer semantics). Swapping exchanges the two roles.
//!
//! A surface is a row-major sequence of `width * height` packed RGBA8888
//! colors; pixel (`x`, `y`) sits at index `y * width + x`.

use vstd::prelude::*;
use vstd::pervasive::VecAdditionalExecFns;
use crate::sprite::{Sprite, SpriteData};

verus! {

/// Surface width in pixels.
pub const DISPLAY_W: usize = 320;

/// Surface height in pixels.
pub const DISPLAY_H: usize = 240;

/// Pixels per surface.
pub const SURF_LEN: usize = 320 * 240;

/// Mathematical model of the double buffer.
#[verifier::ext_equal]
pub struct FbState {
    pub surf0: Seq<u32>,
    pub surf1: Seq<u32>,
    pub current: int,
}

/// The double buffer: two surfaces and the index of the presented one.
pub struct FrameBuffer {
    pub surf0: Vec<u32>,
    pub surf1: Vec<u32>,
    pub current: usize,
}

impl View for FrameBuffer {
    type V = FbState;

    open spec fn view(&self) -> FbState {
        FbState { surf0: self.surf0@, surf1: self.surf1@, current: self.current as int }
    }
}

impl FbState {
    /// Both surfaces hold exactly one color per pixel and the selector
    /// names one of the two.
    pub open spec fn wf(self) -> bool {
        &&& self.surf0.len() == SURF_LEN
        &&& self.surf1.len() == SURF_LEN
        &&& 0 <= self.current <= 1
    }

    /// Index of the surface being presented.
    pub open spec fn presented(self) -> int {
        self.current
    }

    /// Index of the surface that drawing targets.
    pub open spec fn back(self) -> int {
        1 - self.current
    }

    /// The pixels of surface `idx`.
    pub open spec fn surf(self, idx: int) -> Seq<u32> {
        if idx == 0 {
            self.surf0
        } else {
            self.surf1
        }
    }

    /// This state with surface `idx` replaced by `s`.
    pub open spec fn with_surf(self, idx: int, s: Seq<u32>) -> FbState {
        if idx == 0 {
            FbState { surf0: s, ..self }
        } else {
            FbState { surf1: s, ..self }
        }
    }
}

/// Whether surface index `k` falls under the sprite blitted with its
/// top-left at (`x0`, `y0`).
pub open spec fn sprite_covers(x0: int, y0: int, sp: SpriteData, k: int) -> bool {
    &&& x0 <= k % 320 < x0 + sp.width
    &&& y0 <= k / 320 < y0 + sp.height
}

/// The color at surface index `k` after blitting `sp` at (`x0`, `y0`)
/// over a surface that held `old_surf`.
pub open spec fn blit_px(old_surf: Seq<u32>, x0: int, y0: int, sp: SpriteData, k: int) -> u32 {
    if sprite_covers(x0, y0, sp, k) {
        sp.pixel(k % 320 - x0, k / 320 - y0)
    } else {
        old_surf[k]
    }
}

/// A whole surface after blitting `sp` at (`x0`, `y0`). Sprite pixels
/// that fall beyond the right or bottom edge are clipped.
pub open spec fn blit_surf(old_surf: Seq<u32>, x0: int, y0: int, sp: SpriteData) -> Seq<u32> {
    Seq::new(old_surf.len(), |k: int| blit_px(old_surf, x0, y0, sp, k))
}

/// The double buffer after plotting one pixel on the back surface.
pub open spec fn spec_plot(fb: FbState, x: int, y: int, color: u32) -> FbState {
    fb.with_surf(fb.back(), fb.surf(fb.back()).update(y * 320 + x, color))
}

/// The double buffer after blitting `sp` onto the back surface.
pub open spec fn spec_blit(fb: FbState, x0: int, y0: int, sp: SpriteData) -> FbState {
    fb.with_surf(fb.back(), blit_surf(fb.surf(fb.back()), x0, y0, sp))
}

/// A surface of `SURF_LEN` pixels, all zero.
fn zero_surface() -> (r: Vec<u32>)
    ensures
        r@.len() == SURF_LEN,
        forall|i: int| 0 <= i < r@.len() ==> r@[i] == 0u32,
{
    let mut v: Vec<u32> = Vec::new();
    let mut k: usize = 0;
    while k < SURF_LEN
        invariant
            k == v@.len(),
            k <= SURF_LEN,
            forall|i: int| 0 <= i < k ==> v@[i] == 0u32,
        decreases SURF_LEN - k,
    {
        v.push(0u32);
        k += 1;
    }
    v
}

impl FrameBuffer {
    /// A fresh double buffer: both surfaces zeroed, surface 1 presented,
    /// so drawing initially targets surface 0.
    pub fn new() -> (r: FrameBuffer)
        ensures
            r@.wf(),
            r@.current == 1,
            forall|i: int| 0 <= i < SURF_LEN ==> r@.surf0[i] == 0u32,
            forall|i: int| 0 <= i < SURF_LEN ==> r@.surf1[i] == 0u32,
    {
        FrameBuffer { surf0: zero_surface(), surf1: zero_surface(), current: 1 }
    }

    /// Exchange the roles of the two surfaces.
    pub fn swap(&mut self)
        requires
            old(self)@.wf(),
        ensures
            final(self)@.wf(),
            final(self)@ == (FbState { current: old(self)@.back(), ..old(self)@ }),
    {
        if self.current == 0 {
            self.current = 1;
        } else {
            self.current = 0;
        }
    }

    /// Index of the surface being presented.
    pub fn presented_index(&self) -> (r: usize)
        requires
            self@.wf(),
        ensures
            r == self@.presented(),
    {
        self.current
    }

    /// Read access to the pixels of surface `idx`, for presentation.
    pub fn surface(&self, idx: usize) -> (r: &Vec<u32>)
        requires
            self@.wf(),
            idx <= 1,
        ensures
            r@ == self@.surf(idx as int),
    {
        if idx == 0 {
            &self.surf0
        } else {
            &self.surf1
        }
    }

    /// Plot one pixel on the back surface.
    pub fn plot_pixel(&mut self, x: usize, y: usize, color: u32)
        requires
            old(self)@.wf(),
            x < DISPLAY_W,
            y < DISPLAY_H,
        ensures
            final(self)@.wf(),
            final(self)@ == spec_plot(old(self)@, x as int, y as int, color),
    {
        let idx: usize = y * 320 + x;
        if self.current == 0 {
            self.surf1.set(idx, color);
        } else {
            self.surf0.set(idx, color);
        }
    }

    /// Blit a sprite with its top-left at (`x0`, `y0`) onto the back
    /// surface, clipping at the right and bottom edges.
    pub fn blit(&mut self, x0: usize, y0: usize, sp: &Sprite)
        requires
            old(self)@.wf(),
            x0 < DISPLAY_W,
            y0 < DISPLAY_H,
            sp@.wf(),
        ensures
            final(self)@.wf(),
            final(self)@ == spec_blit(old(self)@, x0 as int, y0 as int, sp@),
    {
        if self.current == 0 {
            blit_surface(&mut self.surf1, x0, y0, sp);
        } else {
            blit_surface(&mut self.surf0, x0, y0, sp);
        }
    }
}

/// The pixels the blit loop has already written: sprite rows before `j`,
/// and on row `j` the columns before `i`.
pub open spec fn blit_done(x0: int, y0: int, sp: SpriteData, j: int, i: int, k: int) -> bool {
    k / 320 - y0 < j || (k / 320 - y0 == j && k % 320 - x0 < i)
}

/// One surface mid-blit: covered pixels already visited hold the sprite
/// color, everything else still holds the old color.
pub open spec fn blit_partial(
    old_surf: Seq<u32>,
    x0: int,
    y0: int,
    sp: SpriteData,
    j: int,
    i: int,
    k: int,
) -> u32 {
    if sprite_covers(x0, y0, sp, k) && blit_done(x0, y0, sp, j, i, k) {
        sp.pixel(k % 320 - x0, k / 320 - y0)
    } else {
        old_surf[k]
    }
}

/// Blit `sp` into `surf` with its top-left at (`x0`, `y0`), row by row,
/// skipping pixels beyond the right or bottom edge.
fn blit_surface(surf: &mut Vec<u32>, x0: usize, y0: usize, sp: &Sprite)
    requires
        old(surf)@.len() == SURF_LEN,
        x0 < DISPLAY_W,
        y0 < DISPLAY_H,
        sp@.wf(),
    ensures
        final(surf)@ == blit_surf(old(surf)@, x0 as int, y0 as int, sp@),
{
    let w: usize = sp.width() as usize;
    let h: usize = sp.height() as usize;
    let mut j: usize = 0;
    while j < h
        invariant
            surf@.len() == SURF_LEN,
            x0 < DISPLAY_W,
            y0 < DISPLAY_H,
            sp@.wf(),
            w == sp@.width,
            h == sp@.height,
            j <= h,
            forall|k: int|
                0 <= k < SURF_LEN ==> surf@[k] == #[trigger] blit_partial(
                    old(surf)@,
                    x0 as int,
                    y0 as int,
                    sp@,
                    j as int,
                    0,
                    k,
                ),
        decreases h - j,
    {
        let mut i: usize = 0;
        while i < w
            invariant
                surf@.len() == SURF_LEN,
                x0 < DISPLAY_W,
                y0 < DISPLAY_H,
                sp@.wf(),
                w == sp@.width,
                h == sp@.height,
                sp.rgba.len() == sp@.rgba.len(),
                j < h,
                i <= w,
                forall|k: int|
                    0 <= k < SURF_LEN ==> surf@[k] == #[trigger] blit_partial(
                        old(surf)@,
                        x0 as int,
                        y0 as int,
                        sp@,
                        j as int,
                        i as int,
                        k,
                    ),
            decreases w - i,
        {
            if x0 + i < DISPLAY_W && y0 + j < DISPLAY_H {
                proof {
                    assert(0 <= (j * w + i) * 4 && (j * w + i) * 4 + 4 <= sp@.rgba.len())
                        by (nonlinear_arith)
                        requires
                            j < h,
                            i < w,
                            sp@.wf(),
                            w == sp@.width,
                            h == sp@.height,
                    ;
                }
                let px: u32 = crate::bytes::be32_read(&sp.rgba, (j * w + i) * 4);
                let k: usize = (y0 + j) * 320 + (x0 + i);
                proof {
                    vstd::arithmetic::div_mod::lemma_fundamental_div_mod_converse(
                        k as int,
                        320,
                        (y0 + j) as int,
                        (x0 + i) as int,
                    );
                }
                surf.set(k, px);
                proof {
                    let xi: int = x0 as int;
                    let yi: int = y0 as int;
                    let ji: int = j as int;
                    let ii: int = i as int;
                    assert forall|m: int| 0 <= m < SURF_LEN implies surf@[m]
                        == #[trigger] blit_partial(old(surf)@, xi, yi, sp@, ji, ii + 1, m) by {
                        let before = blit_partial(old(surf)@, xi, yi, sp@, ji, ii, m);
                        if m != k as int {
                            assert(m / 320 != yi + ji || m % 320 != xi + ii) by {
                                if m / 320 == yi + ji && m % 320 == xi + ii {
                                    vstd::arithmetic::div_mod::lemma_fundamental_div_mod(m, 320);
                                }
                            }
                        }
                    }
                }
            } else {
                proof {
                    let xi: int = x0 as int;
                    let yi: int = y0 as int;
                    let ji: int = j as int;
                    let ii: int = i as int;
                    assert forall|m: int| 0 <= m < SURF_LEN implies surf@[m]
                        == #[trigger] blit_partial(old(surf)@, xi, yi, sp@, ji, ii + 1, m) by {
                        let before = blit_partial(old(surf)@, xi, yi, sp@, ji, ii, m);
                        if sprite_covers(xi, yi, sp@, m) && m / 320 - yi == ji && m % 320 - xi
                            == ii {
                            assert(m % 320 < 320) by {
                                vstd::arithmetic::div_mod::lemma_mod_bound(m, 320);
                            }
                            assert(m / 320 < 240) by {
                                vstd::arithmetic::div_mod::lemma_div_is_ordered(
                                    m,
                                    SURF_LEN as int - 1,
                                    320,
                                );
                            }
                        }
                    }
                }
            }
            i += 1;
        }
        proof {
            let xi: int = x0 as int;
            let yi: int = y0 as int;
            let ji: int = j as int;
            assert forall|m: int| 0 <= m < SURF_LEN implies surf@[m] == #[trigger] blit_partial(
                old(surf)@,
                xi,
                yi,
                sp@,
                ji + 1,
                0,
                m,
            ) by {
                assert(blit_partial(old(surf)@, xi, yi, sp@, ji, w as int, m) == blit_partial(
                    old(surf)@,
                    xi,
                    yi,
                    sp@,
                    ji + 1,
                    0,
                    m,
                ));
            }
        }
        j += 1;
    }
    proof {
        let xi: int = x0 as int;
        let yi: int = y0 as int;
        assert forall|m: int| 0 <= m < SURF_LEN implies surf@[m] == blit_surf(
            old(surf)@,
            xi,
            yi,
            sp@,
        )[m] by {
            assert(surf@[m] == blit_partial(old(surf)@, xi, yi, sp@, h as int, 0, m));
        }
        assert(surf@ =~= blit_surf(old(surf)@, xi, yi, sp@));
    }
}

} // verus!
