//! Canonical decoding of the REX3 draw-mode registers.
//!
//! One place that answers "what shape of draw is this?", so that every engine
//! that draws (interpreter, shader compiler, precompiled table) keys the same
//! draw the same way. A draw mode is three register values: DRAWMODE0,
//! DRAWMODE1 and CLIPMODE. [`unpack`] turns them into a [`DynMode`], in which
//! every field that the draw does not read has a fixed value.
use vstd::prelude::*;

verus! {

/// DRAWMODE0 opcode: read pixels from the screen to the host.
pub const DRAWMODE0_OPCODE_READ: u32 = 1;

/// DRAWMODE0 opcode: draw.
pub const DRAWMODE0_OPCODE_DRAW: u32 = 2;

/// DRAWMODE0 opcode: copy from screen to screen.
pub const DRAWMODE0_OPCODE_SCR2SCR: u32 = 3;

/// CLIPMODE bits 0 to 4: the screen masks that are enabled.
pub const CLIPMODE_ENSMASK_MASK: u32 = 0x1F;

/// CLIPMODE bits 9 to 12 hold the CID match nibble.
pub const CLIPMODE_CIDMATCH_SHIFT: u32 = 9;

/// DRAWMODE1 bit 16: DITHER.
pub const DM1_DITHER: u32 = 0x0001_0000;

/// DRAWMODE1 bit 17: FASTCLEAR.
pub const DM1_FASTCLEAR: u32 = 0x0002_0000;

/// DRAWMODE1 bit 18: BLEND.
pub const DM1_BLEND: u32 = 0x0004_0000;

/// The bit field of `v` that starts at bit `lo` and is as wide as `mask`.
pub open spec fn field(v: u32, lo: u32, mask: u32) -> u32 {
    (v >> lo) & mask
}

/// A field at bit 0 needs no shift.
proof fn lemma_shift_by_zero(v: u32)
    ensures
        v >> 0 == v,
{
    assert(v >> 0 == v) by (bit_vector);
}

// ---------------------------------------------------------------------------
// Field extractors
// ---------------------------------------------------------------------------

/// OPCODE, bits 0 to 1 of DRAWMODE0.
#[inline(always)]
pub fn dm0_opcode(v: u32) -> (r: u32)
    ensures
        r == field(v, 0, 0x3),
{
    proof {
        lemma_shift_by_zero(v);
    }
    v & 0x3
}

/// ADRMODE, bits 2 to 4 of DRAWMODE0.
#[inline(always)]
pub fn dm0_adrmode(v: u32) -> (r: u32)
    ensures
        r == field(v, 2, 0x7),
{
    (v >> 2) & 0x7
}

/// DOSETUP, bit 5 of DRAWMODE0.
#[inline(always)]
pub fn dm0_dosetup(v: u32) -> (r: u32)
    ensures
        r == field(v, 5, 1),
{
    (v >> 5) & 1
}

/// COLORHOST, bit 6 of DRAWMODE0.
#[inline(always)]
pub fn dm0_colorhost(v: u32) -> (r: u32)
    ensures
        r == field(v, 6, 1),
{
    (v >> 6) & 1
}

/// ALPHAHOST, bit 7 of DRAWMODE0.
#[inline(always)]
pub fn dm0_alphahost(v: u32) -> (r: u32)
    ensures
        r == field(v, 7, 1),
{
    (v >> 7) & 1
}

/// STOPONX, bit 8 of DRAWMODE0.
#[inline(always)]
pub fn dm0_stoponx(v: u32) -> (r: u32)
    ensures
        r == field(v, 8, 1),
{
    (v >> 8) & 1
}

/// STOPONY, bit 9 of DRAWMODE0.
#[inline(always)]
pub fn dm0_stopony(v: u32) -> (r: u32)
    ensures
        r == field(v, 9, 1),
{
    (v >> 9) & 1
}

/// SKIPFIRST, bit 10 of DRAWMODE0.
#[inline(always)]
pub fn dm0_skipfirst(v: u32) -> (r: u32)
    ensures
        r == field(v, 10, 1),
{
    (v >> 10) & 1
}

/// SKIPLAST, bit 11 of DRAWMODE0.
#[inline(always)]
pub fn dm0_skiplast(v: u32) -> (r: u32)
    ensures
        r == field(v, 11, 1),
{
    (v >> 11) & 1
}

/// ENZPATTERN, bit 12 of DRAWMODE0.
#[inline(always)]
pub fn dm0_enzpattern(v: u32) -> (r: u32)
    ensures
        r == field(v, 12, 1),
{
    (v >> 12) & 1
}

/// ENLSPATTERN, bit 13 of DRAWMODE0.
#[inline(always)]
pub fn dm0_enlspattern(v: u32) -> (r: u32)
    ensures
        r == field(v, 13, 1),
{
    (v >> 13) & 1
}

/// LSADVLAST, bit 14 of DRAWMODE0.
#[inline(always)]
pub fn dm0_lsadvlast(v: u32) -> (r: u32)
    ensures
        r == field(v, 14, 1),
{
    (v >> 14) & 1
}

/// LENGTH32, bit 15 of DRAWMODE0.
#[inline(always)]
pub fn dm0_length32(v: u32) -> (r: u32)
    ensures
        r == field(v, 15, 1),
{
    (v >> 15) & 1
}

/// ZPOPAQUE, bit 16 of DRAWMODE0.
#[inline(always)]
pub fn dm0_zpopaque(v: u32) -> (r: u32)
    ensures
        r == field(v, 16, 1),
{
    (v >> 16) & 1
}

/// LSOPAQUE, bit 17 of DRAWMODE0.
#[inline(always)]
pub fn dm0_lsopaque(v: u32) -> (r: u32)
    ensures
        r == field(v, 17, 1),
{
    (v >> 17) & 1
}

/// SHADE, bit 18 of DRAWMODE0.
#[inline(always)]
pub fn dm0_shade(v: u32) -> (r: u32)
    ensures
        r == field(v, 18, 1),
{
    (v >> 18) & 1
}

/// LRONLY, bit 19 of DRAWMODE0.
#[inline(always)]
pub fn dm0_lronly(v: u32) -> (r: u32)
    ensures
        r == field(v, 19, 1),
{
    (v >> 19) & 1
}

/// XYOFFSET, bit 20 of DRAWMODE0.
#[inline(always)]
pub fn dm0_xyoffset(v: u32) -> (r: u32)
    ensures
        r == field(v, 20, 1),
{
    (v >> 20) & 1
}

/// CICLAMP, bit 21 of DRAWMODE0.
#[inline(always)]
pub fn dm0_ciclamp(v: u32) -> (r: u32)
    ensures
        r == field(v, 21, 1),
{
    (v >> 21) & 1
}

/// ENDPTFILTER, bit 22 of DRAWMODE0.
#[inline(always)]
pub fn dm0_endptfilter(v: u32) -> (r: u32)
    ensures
        r == field(v, 22, 1),
{
    (v >> 22) & 1
}

/// YSTRIDE, bit 23 of DRAWMODE0.
#[inline(always)]
pub fn dm0_ystride(v: u32) -> (r: u32)
    ensures
        r == field(v, 23, 1),
{
    (v >> 23) & 1
}

/// PLANES, bits 0 to 2 of DRAWMODE1.
#[inline(always)]
pub fn dm1_planes(v: u32) -> (r: u32)
    ensures
        r == field(v, 0, 0x7),
{
    proof {
        lemma_shift_by_zero(v);
    }
    v & 0x7
}

/// DRAWDEPTH, bits 3 to 4 of DRAWMODE1.
#[inline(always)]
pub fn dm1_drawdepth(v: u32) -> (r: u32)
    ensures
        r == field(v, 3, 0x3),
{
    (v >> 3) & 0x3
}

/// DBLSRC, bit 5 of DRAWMODE1.
#[inline(always)]
pub fn dm1_dblsrc(v: u32) -> (r: u32)
    ensures
        r == field(v, 5, 1),
{
    (v >> 5) & 1
}

/// YFLIP, bit 6 of DRAWMODE1.
#[inline(always)]
pub fn dm1_yflip(v: u32) -> (r: u32)
    ensures
        r == field(v, 6, 1),
{
    (v >> 6) & 1
}

/// RWPACKED, bit 7 of DRAWMODE1.
#[inline(always)]
pub fn dm1_rwpacked(v: u32) -> (r: u32)
    ensures
        r == field(v, 7, 1),
{
    (v >> 7) & 1
}

/// HOSTDEPTH, bits 8 to 9 of DRAWMODE1.
#[inline(always)]
pub fn dm1_hostdepth(v: u32) -> (r: u32)
    ensures
        r == field(v, 8, 0x3),
{
    (v >> 8) & 0x3
}

/// RWDOUBLE, bit 10 of DRAWMODE1.
#[inline(always)]
pub fn dm1_rwdouble(v: u32) -> (r: u32)
    ensures
        r == field(v, 10, 1),
{
    (v >> 10) & 1
}

/// SWAPENDIAN, bit 11 of DRAWMODE1.
#[inline(always)]
pub fn dm1_swapendian(v: u32) -> (r: u32)
    ensures
        r == field(v, 11, 1),
{
    (v >> 11) & 1
}

/// COMPARE, bits 12 to 14 of DRAWMODE1.
#[inline(always)]
pub fn dm1_compare(v: u32) -> (r: u32)
    ensures
        r == field(v, 12, 0x7),
{
    (v >> 12) & 0x7
}

/// RGBMODE, bit 15 of DRAWMODE1.
#[inline(always)]
pub fn dm1_rgbmode(v: u32) -> (r: u32)
    ensures
        r == field(v, 15, 1),
{
    (v >> 15) & 1
}

/// DITHER, bit 16 of DRAWMODE1.
#[inline(always)]
pub fn dm1_dither(v: u32) -> (r: u32)
    ensures
        r == field(v, 16, 1),
{
    (v >> 16) & 1
}

/// FASTCLEAR, bit 17 of DRAWMODE1.
#[inline(always)]
pub fn dm1_fastclear(v: u32) -> (r: u32)
    ensures
        r == field(v, 17, 1),
{
    (v >> 17) & 1
}

/// BLEND, bit 18 of DRAWMODE1.
#[inline(always)]
pub fn dm1_blend(v: u32) -> (r: u32)
    ensures
        r == field(v, 18, 1),
{
    (v >> 18) & 1
}

/// SFACTOR, bits 19 to 21 of DRAWMODE1.
#[inline(always)]
pub fn dm1_sfactor(v: u32) -> (r: u32)
    ensures
        r == field(v, 19, 0x7),
{
    (v >> 19) & 0x7
}

/// DFACTOR, bits 22 to 24 of DRAWMODE1.
#[inline(always)]
pub fn dm1_dfactor(v: u32) -> (r: u32)
    ensures
        r == field(v, 22, 0x7),
{
    (v >> 22) & 0x7
}

/// BACKBLEND, bit 25 of DRAWMODE1.
#[inline(always)]
pub fn dm1_backblend(v: u32) -> (r: u32)
    ensures
        r == field(v, 25, 1),
{
    (v >> 25) & 1
}

/// PREFETCH, bit 26 of DRAWMODE1.
#[inline(always)]
pub fn dm1_prefetch(v: u32) -> (r: u32)
    ensures
        r == field(v, 26, 1),
{
    (v >> 26) & 1
}

/// BLENDALPHA, bit 27 of DRAWMODE1.
#[inline(always)]
pub fn dm1_blendalpha(v: u32) -> (r: u32)
    ensures
        r == field(v, 27, 1),
{
    (v >> 27) & 1
}

/// LOGICOP, bits 28 to 31 of DRAWMODE1.
#[inline(always)]
pub fn dm1_logicop(v: u32) -> (r: u32)
    ensures
        r == field(v, 28, 0xF),
{
    (v >> 28) & 0xF
}
// ---------------------------------------------------------------------------
// The registers
// ---------------------------------------------------------------------------

/// The DRAWMODE0 register as the drawing engine sees it, one accessor per field.
#[derive(Clone, Copy, Debug, PartialEq, Eq, Structural)]
pub struct DrawMode0(pub u32);

impl DrawMode0 {
    pub fn opcode(&self) -> (r: u32)
        ensures
            r == field(self.0, 0, 0x3),
    {
        proof {
            lemma_shift_by_zero(self.0);
        }
        self.0 & 0x3
    }

    pub fn adrmode(&self) -> (r: u32)
        ensures
            r == field(self.0, 2, 0x7),
    {
        (self.0 >> 2) & 0x7
    }

    pub fn dosetup(&self) -> (r: bool)
        ensures
            r == (field(self.0, 5, 1) == 1),
    {
        (self.0 >> 5) & 1 == 1
    }

    pub fn colorhost(&self) -> (r: bool)
        ensures
            r == (field(self.0, 6, 1) == 1),
    {
        (self.0 >> 6) & 1 == 1
    }

    pub fn alphahost(&self) -> (r: bool)
        ensures
            r == (field(self.0, 7, 1) == 1),
    {
        (self.0 >> 7) & 1 == 1
    }

    pub fn stoponx(&self) -> (r: bool)
        ensures
            r == (field(self.0, 8, 1) == 1),
    {
        (self.0 >> 8) & 1 == 1
    }

    pub fn stopony(&self) -> (r: bool)
        ensures
            r == (field(self.0, 9, 1) == 1),
    {
        (self.0 >> 9) & 1 == 1
    }

    pub fn skipfirst(&self) -> (r: bool)
        ensures
            r == (field(self.0, 10, 1) == 1),
    {
        (self.0 >> 10) & 1 == 1
    }

    pub fn skiplast(&self) -> (r: bool)
        ensures
            r == (field(self.0, 11, 1) == 1),
    {
        (self.0 >> 11) & 1 == 1
    }

    pub fn enzpattern(&self) -> (r: bool)
        ensures
            r == (field(self.0, 12, 1) == 1),
    {
        (self.0 >> 12) & 1 == 1
    }

    pub fn enlspattern(&self) -> (r: bool)
        ensures
            r == (field(self.0, 13, 1) == 1),
    {
        (self.0 >> 13) & 1 == 1
    }

    pub fn lsadvlast(&self) -> (r: bool)
        ensures
            r == (field(self.0, 14, 1) == 1),
    {
        (self.0 >> 14) & 1 == 1
    }

    pub fn length32(&self) -> (r: bool)
        ensures
            r == (field(self.0, 15, 1) == 1),
    {
        (self.0 >> 15) & 1 == 1
    }

    pub fn zpopaque(&self) -> (r: bool)
        ensures
            r == (field(self.0, 16, 1) == 1),
    {
        (self.0 >> 16) & 1 == 1
    }

    pub fn lsopaque(&self) -> (r: bool)
        ensures
            r == (field(self.0, 17, 1) == 1),
    {
        (self.0 >> 17) & 1 == 1
    }

    pub fn shade(&self) -> (r: bool)
        ensures
            r == (field(self.0, 18, 1) == 1),
    {
        (self.0 >> 18) & 1 == 1
    }

    pub fn lronly(&self) -> (r: bool)
        ensures
            r == (field(self.0, 19, 1) == 1),
    {
        (self.0 >> 19) & 1 == 1
    }

    pub fn xyoffset(&self) -> (r: bool)
        ensures
            r == (field(self.0, 20, 1) == 1),
    {
        (self.0 >> 20) & 1 == 1
    }

    pub fn ciclamp(&self) -> (r: bool)
        ensures
            r == (field(self.0, 21, 1) == 1),
    {
        (self.0 >> 21) & 1 == 1
    }

    pub fn endptfilter(&self) -> (r: bool)
        ensures
            r == (field(self.0, 22, 1) == 1),
    {
        (self.0 >> 22) & 1 == 1
    }

    pub fn ystride(&self) -> (r: bool)
        ensures
            r == (field(self.0, 23, 1) == 1),
    {
        (self.0 >> 23) & 1 == 1
    }
}

/// The DRAWMODE1 register as the drawing engine sees it, one accessor per field.
#[derive(Clone, Copy, Debug, PartialEq, Eq, Structural)]
pub struct DrawMode1(pub u32);

impl DrawMode1 {
    pub fn planes(&self) -> (r: u32)
        ensures
            r == field(self.0, 0, 0x7),
    {
        proof {
            lemma_shift_by_zero(self.0);
        }
        self.0 & 0x7
    }

    pub fn drawdepth(&self) -> (r: u32)
        ensures
            r == field(self.0, 3, 0x3),
    {
        (self.0 >> 3) & 0x3
    }

    pub fn dblsrc(&self) -> (r: bool)
        ensures
            r == (field(self.0, 5, 1) == 1),
    {
        (self.0 >> 5) & 1 == 1
    }

    pub fn yflip(&self) -> (r: bool)
        ensures
            r == (field(self.0, 6, 1) == 1),
    {
        (self.0 >> 6) & 1 == 1
    }

    pub fn rwpacked(&self) -> (r: bool)
        ensures
            r == (field(self.0, 7, 1) == 1),
    {
        (self.0 >> 7) & 1 == 1
    }

    pub fn hostdepth(&self) -> (r: u32)
        ensures
            r == field(self.0, 8, 0x3),
    {
        (self.0 >> 8) & 0x3
    }

    pub fn rwdouble(&self) -> (r: bool)
        ensures
            r == (field(self.0, 10, 1) == 1),
    {
        (self.0 >> 10) & 1 == 1
    }

    pub fn swapendian(&self) -> (r: bool)
        ensures
            r == (field(self.0, 11, 1) == 1),
    {
        (self.0 >> 11) & 1 == 1
    }

    pub fn compare(&self) -> (r: u32)
        ensures
            r == field(self.0, 12, 0x7),
    {
        (self.0 >> 12) & 0x7
    }

    pub fn rgbmode(&self) -> (r: bool)
        ensures
            r == (field(self.0, 15, 1) == 1),
    {
        (self.0 >> 15) & 1 == 1
    }

    pub fn dither(&self) -> (r: bool)
        ensures
            r == (field(self.0, 16, 1) == 1),
    {
        (self.0 >> 16) & 1 == 1
    }

    pub fn fastclear(&self) -> (r: bool)
        ensures
            r == (field(self.0, 17, 1) == 1),
    {
        (self.0 >> 17) & 1 == 1
    }

    pub fn blend(&self) -> (r: bool)
        ensures
            r == (field(self.0, 18, 1) == 1),
    {
        (self.0 >> 18) & 1 == 1
    }

    pub fn sfactor(&self) -> (r: u32)
        ensures
            r == field(self.0, 19, 0x7),
    {
        (self.0 >> 19) & 0x7
    }

    pub fn dfactor(&self) -> (r: u32)
        ensures
            r == field(self.0, 22, 0x7),
    {
        (self.0 >> 22) & 0x7
    }

    pub fn backblend(&self) -> (r: bool)
        ensures
            r == (field(self.0, 25, 1) == 1),
    {
        (self.0 >> 25) & 1 == 1
    }

    pub fn prefetch(&self) -> (r: bool)
        ensures
            r == (field(self.0, 26, 1) == 1),
    {
        (self.0 >> 26) & 1 == 1
    }

    pub fn blendalpha(&self) -> (r: bool)
        ensures
            r == (field(self.0, 27, 1) == 1),
    {
        (self.0 >> 27) & 1 == 1
    }

    pub fn logicop(&self) -> (r: u32)
        ensures
            r == field(self.0, 28, 0xF),
    {
        (self.0 >> 28) & 0xF
    }
}
// ---------------------------------------------------------------------------
// Host transfer shape
// ---------------------------------------------------------------------------

/// Host pixels in one host word: one unless the transfer is packed, else as
/// many as fit in 32 bits, or in 64 bits with RWDOUBLE.
pub open spec fn host_pixels(dm1: u32) -> u32 {
    let depth = field(dm1, 8, 0x3);
    let wide = field(dm1, 10, 1) != 0;
    if field(dm1, 7, 1) == 0 {
        1
    } else if depth <= 1 {
        if wide { 8 } else { 4 }
    } else if depth == 2 {
        if wide { 4 } else { 2 }
    } else if wide {
        2
    } else {
        1
    }
}

/// Bits per host pixel in a packed transfer, 0 where the transfer is not packed.
pub open spec fn host_pixel_bits(dm1: u32) -> u32 {
    let depth = field(dm1, 8, 0x3);
    if field(dm1, 7, 1) == 0 {
        0
    } else if depth <= 1 {
        8
    } else if depth == 2 {
        16
    } else {
        32
    }
}

/// Host pixels per host word.
#[inline(always)]
pub fn host_count(dm1: u32) -> (r: u32)
    ensures
        r == host_pixels(dm1),
{
    if dm1_rwpacked(dm1) == 0 {
        return 1;
    }
    let depth: u32 = dm1_hostdepth(dm1);
    proof {
        lemma_field_at_most_mask(dm1, 8, 0x3);
    }
    if dm1_rwdouble(dm1) != 0 {
        match depth {
            0 | 1 => 8,
            2 => 4,
            3 => 2,
            _ => 1,
        }
    } else {
        match depth {
            0 | 1 => 4,
            2 => 2,
            3 => 1,
            _ => 1,
        }
    }
}

/// Bits per host pixel slot.
#[inline(always)]
pub fn host_shift(dm1: u32) -> (r: u32)
    ensures
        r == host_pixel_bits(dm1),
{
    if dm1_rwpacked(dm1) == 0 {
        return 0;
    }
    proof {
        lemma_field_at_most_mask(dm1, 8, 0x3);
    }
    match dm1_hostdepth(dm1) {
        0 | 1 => 8,
        2 => 16,
        3 => 32,
        _ => 0,
    }
}

/// A packed host word is exactly full: the pixels it holds, each as wide as its
/// slot, take 32 bits, or 64 bits with RWDOUBLE.
pub proof fn law_packed_host_words_are_full(dm1: u32)
    requires
        field(dm1, 7, 1) != 0,
    ensures
        host_pixels(dm1) * host_pixel_bits(dm1) == if field(dm1, 10, 1) != 0 {
            64int
        } else {
            32int
        },
{
    let pixels = host_pixels(dm1);
    let bits = host_pixel_bits(dm1);
    if field(dm1, 10, 1) != 0 {
        assert(pixels * bits == 64) by (nonlinear_arith)
            requires
                (pixels == 8 && bits == 8) || (pixels == 4 && bits == 16) || (pixels == 2 && bits
                    == 32),
        ;
    } else {
        assert(pixels * bits == 32) by (nonlinear_arith)
            requires
                (pixels == 4 && bits == 8) || (pixels == 2 && bits == 16) || (pixels == 1 && bits
                    == 32),
        ;
    }
}

// ---------------------------------------------------------------------------
// Normalization of DRAWMODE1
// ---------------------------------------------------------------------------

/// DRAWMODE1 without the bits that other state makes redundant. FASTCLEAR
/// clears BLEND, since the hardware does not blend a fast clear. Otherwise a
/// screen-to-screen copy clears DITHER, since it moves pixels that are already
/// quantized. FASTCLEAR wins where both apply.
pub open spec fn normalized_dm1(dm1: u32, opcode: u32) -> u32 {
    if dm1 & DM1_FASTCLEAR != 0 {
        dm1 & !DM1_BLEND
    } else if opcode == DRAWMODE0_OPCODE_SCR2SCR {
        dm1 & !DM1_DITHER
    } else {
        dm1
    }
}

/// Canonical DRAWMODE1 for keying and specialization: a draw that behaves the
/// same gets the same key, whichever engine asks.
#[inline]
pub fn normalize_dm1(dm1: u32, opcode: u32) -> (r: u32)
    ensures
        r == normalized_dm1(dm1, opcode),
{
    if dm1 & DM1_FASTCLEAR != 0 {
        dm1 & !DM1_BLEND
    } else if opcode == DRAWMODE0_OPCODE_SCR2SCR {
        dm1 & !DM1_DITHER
    } else {
        dm1
    }
}

/// A field never exceeds its mask.
proof fn lemma_field_at_most_mask(v: u32, lo: u32, mask: u32)
    ensures
        field(v, lo, mask) <= mask,
{
    let x = v >> lo;
    assert(x & mask <= mask) by (bit_vector);
}

/// What normalization does to the three bits that it looks at, and that it
/// leaves every other bit alone.
proof fn lemma_normalized_bits(dm1: u32, opcode: u32)
    ensures
        ({
            let n = normalized_dm1(dm1, opcode);
            &&& n & DM1_FASTCLEAR == dm1 & DM1_FASTCLEAR
            &&& n & !(DM1_BLEND | DM1_DITHER) == dm1 & !(DM1_BLEND | DM1_DITHER)
            &&& dm1 & DM1_FASTCLEAR != 0 ==> n & DM1_BLEND == 0 && n & DM1_DITHER == dm1
                & DM1_DITHER
            &&& dm1 & DM1_FASTCLEAR == 0 && opcode == DRAWMODE0_OPCODE_SCR2SCR ==> n & DM1_DITHER
                == 0 && n & DM1_BLEND == dm1 & DM1_BLEND
        }),
{
    assert({
        let blend = dm1 & !0x0004_0000u32;
        let dither = dm1 & !0x0001_0000u32;
        &&& blend & 0x0002_0000 == dm1 & 0x0002_0000
        &&& dither & 0x0002_0000 == dm1 & 0x0002_0000
        &&& blend & !(0x0004_0000u32 | 0x0001_0000u32) == dm1 & !(0x0004_0000u32 | 0x0001_0000u32)
        &&& dither & !(0x0004_0000u32 | 0x0001_0000u32) == dm1 & !(0x0004_0000u32 | 0x0001_0000u32)
        &&& blend & 0x0004_0000 == 0
        &&& dither & 0x0001_0000 == 0
        &&& blend & 0x0001_0000 == dm1 & 0x0001_0000
        &&& dither & 0x0004_0000 == dm1 & 0x0004_0000
    }) by (bit_vector);
}

/// Normalizing twice is normalizing once.
pub proof fn law_normalization_is_idempotent(dm1: u32, opcode: u32)
    ensures
        normalized_dm1(normalized_dm1(dm1, opcode), opcode) == normalized_dm1(dm1, opcode),
{
    lemma_normalized_bits(dm1, opcode);
    assert((dm1 & !0x0004_0000u32) & !0x0004_0000u32 == dm1 & !0x0004_0000u32) by (bit_vector);
    assert((dm1 & !0x0001_0000u32) & !0x0001_0000u32 == dm1 & !0x0001_0000u32) by (bit_vector);
}

/// Where FASTCLEAR and a screen-to-screen copy meet, FASTCLEAR decides: BLEND is
/// cleared and DITHER survives. Bits other than these two are never touched.
pub proof fn law_fastclear_beats_scr2scr(dm1: u32, opcode: u32)
    ensures
        normalized_dm1(dm1, opcode) & !(DM1_BLEND | DM1_DITHER) == dm1 & !(DM1_BLEND | DM1_DITHER),
        dm1 & DM1_FASTCLEAR != 0 ==> {
            &&& normalized_dm1(dm1, opcode) & DM1_BLEND == 0
            &&& normalized_dm1(dm1, opcode) & DM1_DITHER == dm1 & DM1_DITHER
        },
{
    lemma_normalized_bits(dm1, opcode);
}

// ---------------------------------------------------------------------------
// The canonical shape
// ---------------------------------------------------------------------------

/// The canonical shape of a draw: one value per field, with the fields that the
/// draw does not read folded to a fixed value.
#[derive(Clone, Copy, Debug, PartialEq, Eq, Hash, Structural)]
pub struct DynMode {
    pub opcode: u32,
    pub planes: u32,
    pub drawdepth: u32,
    pub dblsrc: u32,
    pub rgbmode: u32,
    pub dither: u32,
    pub fastclear: u32,
    pub blend: u32,
    pub backblend: u32,
    pub blendalpha: u32,
    pub logicop: u32,
    pub compare: u32,
    pub colorhost: u32,
    pub alphahost: u32,
    pub enzpattern: u32,
    pub enlspattern: u32,
    pub zpopaque: u32,
    pub lsopaque: u32,
    pub shade: u32,
    pub ciclamp: u32,
    pub ystride: u32,
    pub lronly: u32,
    pub length32: u32,
    pub stoponx: u32,
    pub stopony: u32,
    pub skipfirst: u32,
    pub skiplast: u32,
    pub lsadvlast: u32,
    pub endptfilter: u32,
    pub adrmode: u32,
    pub xyoffset: u32,
    pub yflip: u32,
    pub ensmask: u32,
    pub cid_mask: u32,
    pub sfactor: u32,
    pub dfactor: u32,
    pub rwpacked: u32,
    pub hostdepth: u32,
    pub rwdouble: u32,
    pub swapendian: u32,
    pub cidtest: u32,
}

/// The CID match nibble of CLIPMODE.
pub open spec fn cid_nibble(clipmode: u32) -> u32 {
    field(clipmode, 9, 0xF)
}

/// The draw tests CIDs. A nibble of 0xF permits every CID, so there is nothing
/// to test.
pub open spec fn tests_cid(clipmode: u32) -> bool {
    cid_nibble(clipmode) != 0xF
}

/// The draw moves host pixels: it takes colour or alpha from the host, or it
/// reads the screen back.
pub open spec fn moves_host_pixels(dm0: u32) -> bool {
    field(dm0, 6, 1) != 0 || field(dm0, 7, 1) != 0 || field(dm0, 0, 0x3) == DRAWMODE0_OPCODE_READ
}

/// ADRMODE of a span.
pub const DRAWMODE0_ADRMODE_SPAN: u32 = 0;

/// ADRMODE of a block.
pub const DRAWMODE0_ADRMODE_BLOCK: u32 = 1;

/// The draw fills a span or a block, and no line.
pub open spec fn fills_area(dm0: u32) -> bool {
    field(dm0, 2, 0x7) == DRAWMODE0_ADRMODE_SPAN || field(dm0, 2, 0x7) == DRAWMODE0_ADRMODE_BLOCK
}

/// The hardware honours FASTCLEAR: the draw is a DRAW of a span or a block, tests no
/// CID and takes no colour from the host.
pub open spec fn clears_fast(dm0: u32, dm1: u32, clipmode: u32) -> bool {
    &&& field(dm1, 17, 1) != 0
    &&& field(dm0, 0, 0x3) == DRAWMODE0_OPCODE_DRAW
    &&& fills_area(dm0)
    &&& !tests_cid(clipmode)
    &&& field(dm0, 6, 1) == 0
}

/// The draw blends: BLEND is set and FASTCLEAR is not.
pub open spec fn blends(dm1: u32) -> bool {
    field(dm1, 18, 1) != 0 && field(dm1, 17, 1) == 0
}

/// `v` where the field is live, 0 where the draw does not read it.
pub open spec fn live(v: u32, is_live: bool) -> u32 {
    if is_live {
        v
    } else {
        0
    }
}

/// The canonical shape of the draw mode `(dm0, dm1, clipmode)`.
pub open spec fn shape_of(dm0: u32, dm1: u32, clipmode: u32) -> DynMode {
    let fast = clears_fast(dm0, dm1, clipmode);
    let blend = blends(dm1);
    let host = moves_host_pixels(dm0);
    let copy = field(dm0, 0, 0x3) == DRAWMODE0_OPCODE_SCR2SCR && field(dm1, 17, 1) == 0;
    DynMode {
        opcode: field(dm0, 0, 0x3),
        planes: field(dm1, 0, 0x7),
        drawdepth: field(dm1, 3, 0x3),
        dblsrc: field(dm1, 5, 1),
        rgbmode: field(dm1, 15, 1),
        dither: live(field(dm1, 16, 1), !fast && !copy),
        fastclear: if fast { 1 } else { 0 },
        blend: live(field(dm1, 18, 1), blend),
        backblend: live(field(dm1, 25, 1), blend),
        blendalpha: live(field(dm1, 27, 1), blend),
        logicop: live(field(dm1, 28, 0xF), !fast && !blend),
        compare: if fast { 7 } else { field(dm1, 12, 0x7) },
        colorhost: field(dm0, 6, 1),
        alphahost: field(dm0, 7, 1),
        enzpattern: live(field(dm0, 12, 1), !fast),
        enlspattern: live(field(dm0, 13, 1), !fast),
        zpopaque: live(field(dm0, 16, 1), !fast),
        lsopaque: live(field(dm0, 17, 1), !fast),
        shade: live(field(dm0, 18, 1), !fast),
        ciclamp: live(field(dm0, 21, 1), !fast && field(dm0, 18, 1) != 0),
        ystride: field(dm0, 23, 1),
        lronly: field(dm0, 19, 1),
        length32: field(dm0, 15, 1),
        stoponx: field(dm0, 8, 1),
        stopony: field(dm0, 9, 1),
        skipfirst: field(dm0, 10, 1),
        skiplast: field(dm0, 11, 1),
        lsadvlast: live(field(dm0, 14, 1), !fast && field(dm0, 13, 1) != 0),
        endptfilter: field(dm0, 22, 1),
        adrmode: field(dm0, 2, 0x7),
        xyoffset: field(dm0, 20, 1),
        yflip: field(dm1, 6, 1),
        ensmask: clipmode & CLIPMODE_ENSMASK_MASK,
        cid_mask: cid_nibble(clipmode),
        sfactor: live(field(dm1, 19, 0x7), blend),
        dfactor: live(field(dm1, 22, 0x7), blend),
        rwpacked: live(field(dm1, 7, 1), host),
        hostdepth: live(field(dm1, 8, 0x3), host),
        rwdouble: live(field(dm1, 10, 1), host),
        swapendian: live(field(dm1, 11, 1), host),
        cidtest: if tests_cid(clipmode) { 1 } else { 0 },
    }
}

/// The fields of DRAWMODE1 that [`unpack`] reads, before and after
/// normalization.
proof fn lemma_fields_of_normalized(dm1: u32, opcode: u32)
    ensures
        ({
            let n = normalized_dm1(dm1, opcode);
            let copy = opcode == DRAWMODE0_OPCODE_SCR2SCR && field(dm1, 17, 1) == 0;
            &&& field(n, 0, 0x7) == field(dm1, 0, 0x7)
            &&& field(n, 3, 0x3) == field(dm1, 3, 0x3)
            &&& field(n, 5, 1) == field(dm1, 5, 1)
            &&& field(n, 6, 1) == field(dm1, 6, 1)
            &&& field(n, 7, 1) == field(dm1, 7, 1)
            &&& field(n, 8, 0x3) == field(dm1, 8, 0x3)
            &&& field(n, 10, 1) == field(dm1, 10, 1)
            &&& field(n, 11, 1) == field(dm1, 11, 1)
            &&& field(n, 12, 0x7) == field(dm1, 12, 0x7)
            &&& field(n, 15, 1) == field(dm1, 15, 1)
            &&& field(n, 16, 1) == live(field(dm1, 16, 1), !copy)
            &&& field(n, 17, 1) == field(dm1, 17, 1)
            &&& field(n, 18, 1) == live(field(dm1, 18, 1), field(dm1, 17, 1) == 0)
            &&& field(n, 19, 0x7) == field(dm1, 19, 0x7)
            &&& field(n, 22, 0x7) == field(dm1, 22, 0x7)
            &&& field(n, 25, 1) == field(dm1, 25, 1)
            &&& field(n, 27, 1) == field(dm1, 27, 1)
            &&& field(n, 28, 0xF) == field(dm1, 28, 0xF)
        }),
{
    let n = normalized_dm1(dm1, opcode);
    let scr2scr = opcode == DRAWMODE0_OPCODE_SCR2SCR;
    assert({
        let copy = scr2scr && (dm1 >> 17) & 1 == 0;
        &&& (n >> 0) & 0x7 == (dm1 >> 0) & 0x7
        &&& (n >> 3) & 0x3 == (dm1 >> 3) & 0x3
        &&& (n >> 5) & 1 == (dm1 >> 5) & 1
        &&& (n >> 6) & 1 == (dm1 >> 6) & 1
        &&& (n >> 7) & 1 == (dm1 >> 7) & 1
        &&& (n >> 8) & 0x3 == (dm1 >> 8) & 0x3
        &&& (n >> 10) & 1 == (dm1 >> 10) & 1
        &&& (n >> 11) & 1 == (dm1 >> 11) & 1
        &&& (n >> 12) & 0x7 == (dm1 >> 12) & 0x7
        &&& (n >> 15) & 1 == (dm1 >> 15) & 1
        &&& (n >> 16) & 1 == if copy { 0u32 } else { (dm1 >> 16) & 1 }
        &&& (n >> 17) & 1 == (dm1 >> 17) & 1
        &&& (n >> 18) & 1 == if (dm1 >> 17) & 1 == 0 { (dm1 >> 18) & 1 } else { 0u32 }
        &&& (n >> 19) & 0x7 == (dm1 >> 19) & 0x7
        &&& (n >> 22) & 0x7 == (dm1 >> 22) & 0x7
        &&& (n >> 25) & 1 == (dm1 >> 25) & 1
        &&& (n >> 27) & 1 == (dm1 >> 27) & 1
        &&& (n >> 28) & 0xF == (dm1 >> 28) & 0xF
    }) by (bit_vector)
        requires
            n == if dm1 & 0x0002_0000 != 0 {
                dm1 & !0x0004_0000u32
            } else if scr2scr {
                dm1 & !0x0001_0000u32
            } else {
                dm1
            },
    ;
}

/// Decode `(dm0, dm1, clipmode)` into the canonical shape.
///
/// Folding the dead fields is what keeps a table of shapes small: drivers leave
/// stale bits in fields that the current mode ignores, and draw modes that
/// differ only there are one shape.
pub fn unpack(dm0: u32, dm1: u32, clipmode: u32) -> (r: DynMode)
    ensures
        r == shape_of(dm0, dm1, clipmode),
{
    let opcode: u32 = dm0_opcode(dm0);
    proof {
        lemma_fields_of_normalized(dm1, opcode);
    }
    let dm1: u32 = normalize_dm1(dm1, opcode);

    let colorhost: u32 = dm0_colorhost(dm0);
    let alphahost: u32 = dm0_alphahost(dm0);
    let is_host = colorhost != 0 || alphahost != 0 || opcode == DRAWMODE0_OPCODE_READ;

    let cid_mask: u32 = (clipmode >> CLIPMODE_CIDMATCH_SHIFT) & 0xF;
    let cidtest: u32 = if cid_mask == 0xF {
        0
    } else {
        1
    };

    // A fast clear is a flat fill of a span or a block from COLORVRAM: no per-pixel
    // operation is left, so every field that steers one is dead.
    let adrmode: u32 = dm0_adrmode(dm0);
    let area = adrmode == DRAWMODE0_ADRMODE_SPAN || adrmode == DRAWMODE0_ADRMODE_BLOCK;
    let fastclear_active = dm1_fastclear(dm1) != 0 && opcode == DRAWMODE0_OPCODE_DRAW && area
        && cidtest == 0 && colorhost == 0;

    // The blend inputs are dead unless the draw blends; the logic op is dead
    // when it does, since the blended value is written directly.
    let blend: u32 = if fastclear_active {
        0
    } else {
        dm1_blend(dm1)
    };
    let blending = blend != 0;
    let shade: u32 = dm0_shade(dm0);
    let enlspattern: u32 = dm0_enlspattern(dm0);

    DynMode {
        opcode,
        planes: dm1_planes(dm1),
        drawdepth: dm1_drawdepth(dm1),
        dblsrc: dm1_dblsrc(dm1),
        rgbmode: dm1_rgbmode(dm1),
        dither: if fastclear_active { 0 } else { dm1_dither(dm1) },
        fastclear: if fastclear_active { 1 } else { 0 },
        blend,
        backblend: if blending { dm1_backblend(dm1) } else { 0 },
        blendalpha: if blending { dm1_blendalpha(dm1) } else { 0 },
        logicop: if fastclear_active || blending { 0 } else { dm1_logicop(dm1) },
        compare: if fastclear_active { 7 } else { dm1_compare(dm1) },
        colorhost,
        alphahost,
        enzpattern: if fastclear_active { 0 } else { dm0_enzpattern(dm0) },
        enlspattern: if fastclear_active { 0 } else { enlspattern },
        zpopaque: if fastclear_active { 0 } else { dm0_zpopaque(dm0) },
        lsopaque: if fastclear_active { 0 } else { dm0_lsopaque(dm0) },
        shade: if fastclear_active { 0 } else { shade },
        ciclamp: if shade != 0 && !fastclear_active { dm0_ciclamp(dm0) } else { 0 },
        ystride: dm0_ystride(dm0),
        lronly: dm0_lronly(dm0),
        length32: dm0_length32(dm0),
        stoponx: dm0_stoponx(dm0),
        stopony: dm0_stopony(dm0),
        skipfirst: dm0_skipfirst(dm0),
        skiplast: dm0_skiplast(dm0),
        lsadvlast: if enlspattern != 0 && !fastclear_active { dm0_lsadvlast(dm0) } else { 0 },
        endptfilter: dm0_endptfilter(dm0),
        adrmode,
        xyoffset: dm0_xyoffset(dm0),
        yflip: dm1_yflip(dm1),
        ensmask: clipmode & CLIPMODE_ENSMASK_MASK,
        cid_mask,
        sfactor: if blending { dm1_sfactor(dm1) } else { 0 },
        dfactor: if blending { dm1_dfactor(dm1) } else { 0 },
        rwpacked: if is_host { dm1_rwpacked(dm1) } else { 0 },
        hostdepth: if is_host { dm1_hostdepth(dm1) } else { 0 },
        rwdouble: if is_host { dm1_rwdouble(dm1) } else { 0 },
        swapendian: if is_host { dm1_swapendian(dm1) } else { 0 },
        cidtest,
    }
}

// ---------------------------------------------------------------------------
// Laws of the canonical shape
// ---------------------------------------------------------------------------

/// Normalizing DRAWMODE1 first does not change the shape: the key of the shader
/// cache and the key of the generated table agree.
pub proof fn law_shape_ignores_what_normalization_clears(dm0: u32, dm1: u32, clipmode: u32)
    ensures
        shape_of(dm0, normalized_dm1(dm1, field(dm0, 0, 0x3)), clipmode) == shape_of(
            dm0,
            dm1,
            clipmode,
        ),
{
    lemma_fields_of_normalized(dm1, field(dm0, 0, 0x3));
}

/// Two values of DRAWMODE0 agree on where the draw goes, on what it moves and
/// on the opcode: the fields that a fast clear still reads.
pub open spec fn same_geometry(a: u32, b: u32) -> bool {
    &&& field(a, 0, 0x3) == field(b, 0, 0x3)
    &&& field(a, 2, 0x7) == field(b, 2, 0x7)
    &&& field(a, 6, 1) == field(b, 6, 1)
    &&& field(a, 7, 1) == field(b, 7, 1)
    &&& field(a, 8, 1) == field(b, 8, 1)
    &&& field(a, 9, 1) == field(b, 9, 1)
    &&& field(a, 10, 1) == field(b, 10, 1)
    &&& field(a, 11, 1) == field(b, 11, 1)
    &&& field(a, 15, 1) == field(b, 15, 1)
    &&& field(a, 19, 1) == field(b, 19, 1)
    &&& field(a, 20, 1) == field(b, 20, 1)
    &&& field(a, 22, 1) == field(b, 22, 1)
    &&& field(a, 23, 1) == field(b, 23, 1)
}

/// Two values of DRAWMODE1 agree on the planes that are written, on the
/// orientation and on the host transfer.
pub open spec fn same_target(a: u32, b: u32) -> bool {
    &&& field(a, 0, 0x7) == field(b, 0, 0x7)
    &&& field(a, 3, 0x3) == field(b, 3, 0x3)
    &&& field(a, 5, 1) == field(b, 5, 1)
    &&& field(a, 6, 1) == field(b, 6, 1)
    &&& field(a, 15, 1) == field(b, 15, 1)
    &&& field(a, 7, 1) == field(b, 7, 1)
    &&& field(a, 8, 0x3) == field(b, 8, 0x3)
    &&& field(a, 10, 1) == field(b, 10, 1)
    &&& field(a, 11, 1) == field(b, 11, 1)
}

/// A fast clear supports no per-pixel operation, so the bits that steer one
/// (shade, stipple, dither, blend, logic op, compare) are stale in it: two fast
/// clears that agree on geometry and target have one shape.
pub proof fn law_fastclear_collapses_the_pipeline(
    dm0_a: u32,
    dm1_a: u32,
    dm0_b: u32,
    dm1_b: u32,
    clipmode: u32,
)
    requires
        clears_fast(dm0_a, dm1_a, clipmode),
        clears_fast(dm0_b, dm1_b, clipmode),
        same_geometry(dm0_a, dm0_b),
        same_target(dm1_a, dm1_b),
    ensures
        shape_of(dm0_a, dm1_a, clipmode) == shape_of(dm0_b, dm1_b, clipmode),
        ({
            let s = shape_of(dm0_a, dm1_a, clipmode);
            &&& s.fastclear == 1 && s.compare == 7
            &&& s.blend == 0 && s.dither == 0 && s.logicop == 0 && s.shade == 0
            &&& s.enzpattern == 0 && s.enlspattern == 0
        }),
{
    lemma_bit_values(dm1_a, 17);
    lemma_bit_values(dm1_b, 17);
}

/// Two values of DRAWMODE1 agree on every field but the blend factors and the
/// two blend modifiers.
pub open spec fn same_but_blend_inputs(a: u32, b: u32) -> bool {
    &&& same_target(a, b)
    &&& field(a, 12, 0x7) == field(b, 12, 0x7)
    &&& field(a, 16, 1) == field(b, 16, 1)
    &&& field(a, 17, 1) == field(b, 17, 1)
    &&& field(a, 18, 1) == field(b, 18, 1)
    &&& field(a, 28, 0xF) == field(b, 28, 0xF)
}

/// Where the draw does not blend, the blend inputs are stale: they do not make a
/// second shape.
pub proof fn law_blend_inputs_fold_when_not_blending(
    dm0: u32,
    dm1_a: u32,
    dm1_b: u32,
    clipmode: u32,
)
    requires
        !blends(dm1_a),
        same_but_blend_inputs(dm1_a, dm1_b),
    ensures
        shape_of(dm0, dm1_a, clipmode) == shape_of(dm0, dm1_b, clipmode),
{
}

/// Two values of DRAWMODE1 agree on every field but those of the host transfer.
pub open spec fn same_but_host_transfer(a: u32, b: u32) -> bool {
    &&& field(a, 0, 0x7) == field(b, 0, 0x7)
    &&& field(a, 3, 0x3) == field(b, 3, 0x3)
    &&& field(a, 5, 1) == field(b, 5, 1)
    &&& field(a, 6, 1) == field(b, 6, 1)
    &&& field(a, 12, 0x7) == field(b, 12, 0x7)
    &&& field(a, 15, 1) == field(b, 15, 1)
    &&& field(a, 16, 1) == field(b, 16, 1)
    &&& field(a, 17, 1) == field(b, 17, 1)
    &&& field(a, 18, 1) == field(b, 18, 1)
    &&& field(a, 19, 0x7) == field(b, 19, 0x7)
    &&& field(a, 22, 0x7) == field(b, 22, 0x7)
    &&& field(a, 25, 1) == field(b, 25, 1)
    &&& field(a, 27, 1) == field(b, 27, 1)
    &&& field(a, 28, 0xF) == field(b, 28, 0xF)
}

/// Where no host pixels move, the shape of the host transfer is dead.
pub proof fn law_host_transfer_folds_for_non_host_draws(
    dm0: u32,
    dm1_a: u32,
    dm1_b: u32,
    clipmode: u32,
)
    requires
        !moves_host_pixels(dm0),
        same_but_host_transfer(dm1_a, dm1_b),
    ensures
        shape_of(dm0, dm1_a, clipmode) == shape_of(dm0, dm1_b, clipmode),
{
}

/// CID checking disables FASTCLEAR, and so does colour from the host; a line, or
/// anything but a DRAW, does not have it. Such a draw is an ordinary one: the logic
/// op, the compare, the shade, the stipples and the dither stay live.
pub proof fn law_fastclear_yields_to_cid_and_colorhost(dm0: u32, dm1: u32, clipmode: u32)
    requires
        tests_cid(clipmode) || field(dm0, 6, 1) != 0 || !fills_area(dm0) || field(dm0, 0, 0x3)
            != DRAWMODE0_OPCODE_DRAW,
    ensures
        ({
            let s = shape_of(dm0, dm1, clipmode);
            &&& s.fastclear == 0
            &&& s.compare == field(dm1, 12, 0x7)
            &&& !blends(dm1) ==> s.logicop == field(dm1, 28, 0xF)
            &&& s.shade == field(dm0, 18, 1)
            &&& s.enzpattern == field(dm0, 12, 1) && s.zpopaque == field(dm0, 16, 1)
            &&& s.enlspattern == field(dm0, 13, 1) && s.lsopaque == field(dm0, 17, 1)
            &&& field(dm0, 0, 0x3) != DRAWMODE0_OPCODE_SCR2SCR ==> s.dither == field(dm1, 16, 1)
        }),
{
}

/// The host bits of DRAWMODE0 are never folded: a line that takes host pixels
/// keeps a shape of its own, so an engine that cannot draw it can tell.
pub proof fn law_host_bits_are_never_folded(dm0: u32, dm1: u32, clipmode: u32)
    ensures
        shape_of(dm0, dm1, clipmode).colorhost == field(dm0, 6, 1),
        shape_of(dm0, dm1, clipmode).alphahost == field(dm0, 7, 1),
        shape_of(dm0, dm1, clipmode).adrmode == field(dm0, 2, 0x7),
{
}

/// A field, moved back to where it stands, is what the register has there.
proof fn lemma_fields_in_place(v: u32)
    ensures
        field(v, 0, 0x3) << 0 == v & 0x0000_0003,
        field(v, 0, 0x7) << 0 == v & 0x0000_0007,
        field(v, 2, 0x7) << 2 == v & 0x0000_001c,
        field(v, 3, 0x3) << 3 == v & 0x0000_0018,
        field(v, 5, 1) << 5 == v & 0x0000_0020,
        field(v, 6, 1) << 6 == v & 0x0000_0040,
        field(v, 7, 1) << 7 == v & 0x0000_0080,
        field(v, 8, 1) << 8 == v & 0x0000_0100,
        field(v, 8, 0x3) << 8 == v & 0x0000_0300,
        field(v, 9, 1) << 9 == v & 0x0000_0200,
        field(v, 10, 1) << 10 == v & 0x0000_0400,
        field(v, 11, 1) << 11 == v & 0x0000_0800,
        field(v, 12, 1) << 12 == v & 0x0000_1000,
        field(v, 12, 0x7) << 12 == v & 0x0000_7000,
        field(v, 13, 1) << 13 == v & 0x0000_2000,
        field(v, 14, 1) << 14 == v & 0x0000_4000,
        field(v, 15, 1) << 15 == v & 0x0000_8000,
        field(v, 16, 1) << 16 == v & 0x0001_0000,
        field(v, 17, 1) << 17 == v & 0x0002_0000,
        field(v, 18, 1) << 18 == v & 0x0004_0000,
        field(v, 19, 1) << 19 == v & 0x0008_0000,
        field(v, 19, 0x7) << 19 == v & 0x0038_0000,
        field(v, 20, 1) << 20 == v & 0x0010_0000,
        field(v, 21, 1) << 21 == v & 0x0020_0000,
        field(v, 22, 1) << 22 == v & 0x0040_0000,
        field(v, 22, 0x7) << 22 == v & 0x01c0_0000,
        field(v, 23, 1) << 23 == v & 0x0080_0000,
        field(v, 25, 1) << 25 == v & 0x0200_0000,
        field(v, 27, 1) << 27 == v & 0x0800_0000,
        field(v, 28, 0xf) << 28 == v & 0xf000_0000,
        field(v, 9, 0xF) << 9 == v & 0x0000_1e00,
{
    assert({
        &&& ((v >> 0) & 0x3) << 0 == v & 0x0000_0003
        &&& ((v >> 0) & 0x7) << 0 == v & 0x0000_0007
        &&& ((v >> 2) & 0x7) << 2 == v & 0x0000_001c
        &&& ((v >> 3) & 0x3) << 3 == v & 0x0000_0018
        &&& ((v >> 5) & 1) << 5 == v & 0x0000_0020
        &&& ((v >> 6) & 1) << 6 == v & 0x0000_0040
        &&& ((v >> 7) & 1) << 7 == v & 0x0000_0080
        &&& ((v >> 8) & 1) << 8 == v & 0x0000_0100
        &&& ((v >> 8) & 0x3) << 8 == v & 0x0000_0300
        &&& ((v >> 9) & 1) << 9 == v & 0x0000_0200
        &&& ((v >> 10) & 1) << 10 == v & 0x0000_0400
        &&& ((v >> 11) & 1) << 11 == v & 0x0000_0800
        &&& ((v >> 12) & 1) << 12 == v & 0x0000_1000
        &&& ((v >> 12) & 0x7) << 12 == v & 0x0000_7000
        &&& ((v >> 13) & 1) << 13 == v & 0x0000_2000
        &&& ((v >> 14) & 1) << 14 == v & 0x0000_4000
        &&& ((v >> 15) & 1) << 15 == v & 0x0000_8000
        &&& ((v >> 16) & 1) << 16 == v & 0x0001_0000
        &&& ((v >> 17) & 1) << 17 == v & 0x0002_0000
        &&& ((v >> 18) & 1) << 18 == v & 0x0004_0000
        &&& ((v >> 19) & 1) << 19 == v & 0x0008_0000
        &&& ((v >> 19) & 0x7) << 19 == v & 0x0038_0000
        &&& ((v >> 20) & 1) << 20 == v & 0x0010_0000
        &&& ((v >> 21) & 1) << 21 == v & 0x0020_0000
        &&& ((v >> 22) & 1) << 22 == v & 0x0040_0000
        &&& ((v >> 22) & 0x7) << 22 == v & 0x01c0_0000
        &&& ((v >> 23) & 1) << 23 == v & 0x0080_0000
        &&& ((v >> 25) & 1) << 25 == v & 0x0200_0000
        &&& ((v >> 27) & 1) << 27 == v & 0x0800_0000
        &&& ((v >> 28) & 0xf) << 28 == v & 0xf000_0000
        &&& ((v >> 9) & 0xf) << 9 == v & 0x0000_1e00
    }) by (bit_vector);
}

/// Whether a field is zero, and which value the short ones have, told from the bits of
/// the register in place.
proof fn lemma_field_tests(v: u32)
    ensures
        field(v, 0, 0x3) == v & 3,
        field(v, 2, 0x7) <= 1 <==> v & 0x18 == 0,
        field(v, 6, 1) == 0 <==> v & 0x40 == 0,
        field(v, 7, 1) == 0 <==> v & 0x80 == 0,
        field(v, 10, 1) == 0 <==> v & 0x400 == 0,
        field(v, 8, 0x3) <= 1 <==> v & 0x200 == 0,
        field(v, 8, 0x3) == 2 <==> v & 0x300 == 0x200,
        field(v, 8, 0x3) == 3 <==> v & 0x300 == 0x300,
        field(v, 13, 1) == 0 <==> v & 0x2000 == 0,
        field(v, 17, 1) == 0 <==> v & 0x2_0000 == 0,
        field(v, 18, 1) == 0 <==> v & 0x4_0000 == 0,
        field(v, 9, 0xF) == 0xF <==> v & 0x1e00 == 0x1e00,
{
    assert({
        &&& (v >> 0) & 3 == v & 3
        &&& ((v >> 2) & 7 <= 1 <==> v & 0x18 == 0)
        &&& ((v >> 6) & 1 == 0 <==> v & 0x40 == 0)
        &&& ((v >> 7) & 1 == 0 <==> v & 0x80 == 0)
        &&& ((v >> 10) & 1 == 0 <==> v & 0x400 == 0)
        &&& ((v >> 8) & 3 <= 1 <==> v & 0x200 == 0)
        &&& ((v >> 8) & 3 == 2 <==> v & 0x300 == 0x200)
        &&& ((v >> 8) & 3 == 3 <==> v & 0x300 == 0x300)
        &&& ((v >> 13) & 1 == 0 <==> v & 0x2000 == 0)
        &&& ((v >> 17) & 1 == 0 <==> v & 0x2_0000 == 0)
        &&& ((v >> 18) & 1 == 0 <==> v & 0x4_0000 == 0)
        &&& ((v >> 9) & 0xF == 0xF <==> v & 0x1e00 == 0x1e00)
    }) by (bit_vector);
}

/// Fields that every draw reads come through as the registers have them: each, moved
/// back to its place, is the bits of its register there.
pub proof fn law_fields_that_always_come_through(dm0: u32, dm1: u32, clipmode: u32)
    ensures
        ({
            let s = shape_of(dm0, dm1, clipmode);
            &&& s.opcode == dm0 & 0x0000_0003
            &&& s.adrmode << 2 == dm0 & 0x0000_001c
            &&& s.colorhost << 6 == dm0 & 0x0000_0040
            &&& s.alphahost << 7 == dm0 & 0x0000_0080
            &&& s.stoponx << 8 == dm0 & 0x0000_0100
            &&& s.stopony << 9 == dm0 & 0x0000_0200
            &&& s.skipfirst << 10 == dm0 & 0x0000_0400
            &&& s.skiplast << 11 == dm0 & 0x0000_0800
            &&& s.length32 << 15 == dm0 & 0x0000_8000
            &&& s.lronly << 19 == dm0 & 0x0008_0000
            &&& s.xyoffset << 20 == dm0 & 0x0010_0000
            &&& s.endptfilter << 22 == dm0 & 0x0040_0000
            &&& s.ystride << 23 == dm0 & 0x0080_0000
            &&& s.planes == dm1 & 0x0000_0007
            &&& s.drawdepth << 3 == dm1 & 0x0000_0018
            &&& s.dblsrc << 5 == dm1 & 0x0000_0020
            &&& s.yflip << 6 == dm1 & 0x0000_0040
            &&& s.rgbmode << 15 == dm1 & 0x0000_8000
            &&& s.ensmask == clipmode & 0x0000_001f
            &&& s.cid_mask << 9 == clipmode & 0x0000_1e00
            &&& s.cidtest == if clipmode & 0x0000_1e00 == 0x0000_1e00 {
                0u32
            } else {
                1
            }
        }),
{
    lemma_fields_in_place(dm0);
    lemma_fields_in_place(dm1);
    lemma_fields_in_place(clipmode);
    lemma_field_tests(clipmode);
    lemma_shift_by_zero(dm0);
    lemma_shift_by_zero(dm1);
}

/// What blends and what it reads: a draw with BLEND and without FASTCLEAR takes the source
/// factor from bits 19 to 21, the destination factor from bits 22 to 24, BACKBLEND from
/// bit 25 and BLENDALPHA from bit 27 of DRAWMODE1, and no logic op. Any other draw has none
/// of these, and reads the logic op from bits 28 to 31 unless it is a fast clear.
pub proof fn law_blend_fields(dm0: u32, dm1: u32, clipmode: u32)
    ensures
        ({
            let s = shape_of(dm0, dm1, clipmode);
            let blending = dm1 & 0x0004_0000 != 0 && dm1 & 0x0002_0000 == 0;
            &&& blending ==> {
                &&& s.blend == 1
                &&& s.sfactor << 19 == dm1 & 0x0038_0000
                &&& s.dfactor << 22 == dm1 & 0x01c0_0000
                &&& s.backblend << 25 == dm1 & 0x0200_0000
                &&& s.blendalpha << 27 == dm1 & 0x0800_0000
                &&& s.logicop == 0
            }
            &&& !blending ==> {
                &&& s.blend == 0 && s.sfactor == 0 && s.dfactor == 0
                &&& s.backblend == 0 && s.blendalpha == 0
                &&& s.fastclear == 0 ==> s.logicop << 28 == dm1 & 0xf000_0000
            }
        }),
{
    lemma_fields_in_place(dm1);
    lemma_field_tests(dm1);
    lemma_bit_values(dm1, 18);
}

/// Which draws are fast clears: FASTCLEAR is set, the draw is a DRAW of a span or a block,
/// every CID is permitted and no colour comes from the host.
pub proof fn law_what_clears_fast(dm0: u32, dm1: u32, clipmode: u32)
    ensures
        shape_of(dm0, dm1, clipmode).fastclear == if dm1 & 0x0002_0000 != 0 && dm0 & 0x3 == 2
            && dm0 & 0x18 == 0 && dm0 & 0x40 == 0 && clipmode & 0x1e00 == 0x1e00 {
            1u32
        } else {
            0
        },
{
    lemma_field_tests(dm0);
    lemma_field_tests(dm1);
    lemma_field_tests(clipmode);
}

/// What the pixel pipeline of a draw reads: nothing in a fast clear, which passes every
/// compare. In any other draw the patterns, SHADE and the compare come through as they are,
/// CICLAMP does with SHADE, LSADVLAST with the line stipple, and DITHER unless the draw is a
/// copy on the screen without FASTCLEAR.
pub proof fn law_pipeline_fields(dm0: u32, dm1: u32, clipmode: u32)
    ensures
        ({
            let s = shape_of(dm0, dm1, clipmode);
            &&& s.fastclear == 1 ==> {
                &&& s.compare == 7
                &&& s.enzpattern == 0 && s.enlspattern == 0 && s.zpopaque == 0 && s.lsopaque == 0
                &&& s.shade == 0 && s.ciclamp == 0 && s.lsadvlast == 0 && s.dither == 0
                &&& s.logicop == 0 && s.blend == 0
            }
            &&& s.fastclear == 0 ==> {
                &&& s.compare << 12 == dm1 & 0x0000_7000
                &&& s.enzpattern << 12 == dm0 & 0x0000_1000
                &&& s.enlspattern << 13 == dm0 & 0x0000_2000
                &&& s.zpopaque << 16 == dm0 & 0x0001_0000
                &&& s.lsopaque << 17 == dm0 & 0x0002_0000
                &&& s.shade << 18 == dm0 & 0x0004_0000
                &&& dm0 & 0x0004_0000 != 0 ==> s.ciclamp << 21 == dm0 & 0x0020_0000
                &&& dm0 & 0x0004_0000 == 0 ==> s.ciclamp == 0
                &&& dm0 & 0x0000_2000 != 0 ==> s.lsadvlast << 14 == dm0 & 0x0000_4000
                &&& dm0 & 0x0000_2000 == 0 ==> s.lsadvlast == 0
                &&& dm0 & 0x3 == 3 && dm1 & 0x0002_0000 == 0 ==> s.dither == 0
                &&& dm0 & 0x3 != 3 || dm1 & 0x0002_0000 != 0 ==> s.dither << 16 == dm1
                    & 0x0001_0000
            }
        }),
{
    lemma_fields_in_place(dm0);
    lemma_fields_in_place(dm1);
    lemma_field_tests(dm0);
    lemma_field_tests(dm1);
}

/// The shape of a host transfer comes through exactly where host pixels move: with
/// COLORHOST, with ALPHAHOST, or in a READ.
pub proof fn law_host_transfer_fields(dm0: u32, dm1: u32, clipmode: u32)
    ensures
        ({
            let s = shape_of(dm0, dm1, clipmode);
            let host = dm0 & 0x40 != 0 || dm0 & 0x80 != 0 || dm0 & 0x3 == 1;
            &&& host ==> {
                &&& s.rwpacked << 7 == dm1 & 0x0000_0080
                &&& s.hostdepth << 8 == dm1 & 0x0000_0300
                &&& s.rwdouble << 10 == dm1 & 0x0000_0400
                &&& s.swapendian << 11 == dm1 & 0x0000_0800
            }
            &&& !host ==> s.rwpacked == 0 && s.hostdepth == 0 && s.rwdouble == 0 && s.swapendian
                == 0
        }),
{
    lemma_fields_in_place(dm1);
    lemma_field_tests(dm0);
}

/// Two blending draws whose registers differ in the source factor alone, bits 19 to 21 of
/// DRAWMODE1, have shapes that differ in the source factor alone.
pub proof fn law_source_factors_are_told_apart(dm0: u32, dm1_a: u32, dm1_b: u32, clipmode: u32)
    requires
        dm1_a & 0x0004_0000 != 0 && dm1_a & 0x0002_0000 == 0,
        dm1_a & 0xffc7_ffff == dm1_b & 0xffc7_ffff,
    ensures
        ({
            let a = shape_of(dm0, dm1_a, clipmode);
            let b = shape_of(dm0, dm1_b, clipmode);
            &&& b == (DynMode { sfactor: b.sfactor, ..a })
            &&& a.sfactor == b.sfactor <==> dm1_a == dm1_b
        }),
{
    lemma_field_tests(dm1_a);
    lemma_field_tests(dm1_b);
    assert({
        let a = dm1_a;
        let b = dm1_b;
        &&& (a >> 0) & 0x7 == (b >> 0) & 0x7
        &&& (a >> 3) & 0x3 == (b >> 3) & 0x3
        &&& (a >> 5) & 1 == (b >> 5) & 1
        &&& (a >> 6) & 1 == (b >> 6) & 1
        &&& (a >> 7) & 1 == (b >> 7) & 1
        &&& (a >> 8) & 0x3 == (b >> 8) & 0x3
        &&& (a >> 10) & 1 == (b >> 10) & 1
        &&& (a >> 11) & 1 == (b >> 11) & 1
        &&& (a >> 12) & 0x7 == (b >> 12) & 0x7
        &&& (a >> 15) & 1 == (b >> 15) & 1
        &&& (a >> 16) & 1 == (b >> 16) & 1
        &&& (a >> 17) & 1 == (b >> 17) & 1
        &&& (a >> 18) & 1 == (b >> 18) & 1
        &&& (a >> 22) & 0x7 == (b >> 22) & 0x7
        &&& (a >> 25) & 1 == (b >> 25) & 1
        &&& (a >> 27) & 1 == (b >> 27) & 1
        &&& (a >> 28) & 0xF == (b >> 28) & 0xF
        &&& ((a >> 19) & 0x7 == (b >> 19) & 0x7 <==> a == b)
    }) by (bit_vector)
        requires
            dm1_a & 0xffc7_ffff == dm1_b & 0xffc7_ffff,
    ;
}

/// How wide a host pixel is, and how many a host word holds: a transfer that is not packed
/// has one; a packed one has slots of 8 bits for depths 0 and 1, of 16 for depth 2 and of 32
/// for depth 3, as many as fill 32 bits, or 64 bits with RWDOUBLE.
pub proof fn law_host_slots(dm1: u32)
    ensures
        dm1 & 0x80 == 0 ==> host_pixels(dm1) == 1 && host_pixel_bits(dm1) == 0,
        dm1 & 0x80 != 0 ==> {
            &&& dm1 & 0x200 == 0 ==> host_pixel_bits(dm1) == 8
            &&& dm1 & 0x300 == 0x200 ==> host_pixel_bits(dm1) == 16
            &&& dm1 & 0x300 == 0x300 ==> host_pixel_bits(dm1) == 32
            &&& host_pixels(dm1) * host_pixel_bits(dm1) == if dm1 & 0x400 != 0 {
                64int
            } else {
                32int
            }
        },
{
    lemma_field_tests(dm1);
    if dm1 & 0x80 != 0 {
        law_packed_host_words_are_full(dm1);
    }
}

/// Normalization changes at most one bit of DRAWMODE1: it clears bit 18 where bit 17 is
/// set, else bit 16 in a copy on the screen.
pub proof fn law_what_normalization_clears(dm1: u32, opcode: u32)
    ensures
        dm1 & 0x0002_0000 != 0 ==> normalized_dm1(dm1, opcode) | (dm1 & 0x0004_0000) == dm1
            && normalized_dm1(dm1, opcode) & 0x0004_0000 == 0,
        dm1 & 0x0002_0000 == 0 && opcode == 3 ==> normalized_dm1(dm1, opcode) | (dm1
            & 0x0001_0000) == dm1 && normalized_dm1(dm1, opcode) & 0x0001_0000 == 0,
        dm1 & 0x0002_0000 == 0 && opcode != 3 ==> normalized_dm1(dm1, opcode) == dm1,
{
    assert({
        &&& (dm1 & !0x0004_0000u32) | (dm1 & 0x0004_0000) == dm1
        &&& (dm1 & !0x0004_0000u32) & 0x0004_0000 == 0
        &&& (dm1 & !0x0001_0000u32) | (dm1 & 0x0001_0000) == dm1
        &&& (dm1 & !0x0001_0000u32) & 0x0001_0000 == 0
    }) by (bit_vector);
}

/// A one-bit field is 0 or 1.
proof fn lemma_bit_values(v: u32, lo: u32)
    ensures
        field(v, lo, 1) == 0 || field(v, lo, 1) == 1,
{
    lemma_field_at_most_mask(v, lo, 1);
}

// ---------------------------------------------------------------------------
// Shape-key hashing
// ---------------------------------------------------------------------------

/// The multiplier that spreads each word over all 64 bits.
pub const SHAPE_HASH_SEED: u64 = 0x517c_c1b7_2722_0a95;

/// `h` rotated left by five bits.
pub open spec fn rotated_left_5(h: u64) -> u64 {
    (h << 5) | (h >> 59)
}

/// The state after one more word: rotate, mix in the word, multiply.
pub open spec fn mix(h: u64, w: u64) -> u64 {
    (((rotated_left_5(h) ^ w) as int * SHAPE_HASH_SEED as int) % 0x1_0000_0000_0000_0000) as u64
}

/// The word that up to eight bytes make, little endian, with zeros on top.
pub open spec fn le_word(bytes: Seq<u8>) -> u64
    decreases bytes.len(),
{
    if bytes.len() == 0 {
        0
    } else {
        (bytes[0] as u64) | (le_word(bytes.drop_first()) << 8)
    }
}

/// The state after the bytes, taken eight at a time.
pub open spec fn mix_bytes(h: u64, bytes: Seq<u8>) -> u64
    decreases bytes.len(),
{
    if bytes.len() == 0 {
        h
    } else if bytes.len() <= 8 {
        mix(h, le_word(bytes))
    } else {
        mix_bytes(mix(h, le_word(bytes.take(8))), bytes.skip(8))
    }
}

/// The rotation by five bits loses nothing: the top five bits come back at the bottom.
pub proof fn law_rotation(h: u64)
    ensures
        rotated_left_5(h) % 32 == h / 0x0800_0000_0000_0000,
        rotated_left_5(h) / 32 == h % 0x0800_0000_0000_0000,
{
    assert(((h << 5) | (h >> 59)) % 32 == h / 0x0800_0000_0000_0000) by (bit_vector);
    assert(((h << 5) | (h >> 59)) / 32 == h % 0x0800_0000_0000_0000) by (bit_vector);
}

/// A word is mixed in by a multiplication that can be undone: the new state times the
/// inverse of the seed, modulo 2^64, is the rotated old state with the word over it. So
/// two different words never lead from one state to the same state.
pub proof fn law_mixing_can_be_undone(h: u64, w: u64)
    ensures
        (mix(h, w) * 0x2040003d780970bdint) % 0x1_0000_0000_0000_0000 == rotated_left_5(h) ^ w,
{
    let x = (rotated_left_5(h) ^ w) as int;
    let seed = SHAPE_HASH_SEED as int;
    let back = 0x2040003d780970bdint;
    let m = 0x1_0000_0000_0000_0000int;
    vstd::arithmetic::div_mod::lemma_mul_mod_noop_left(x * seed, back, m);
    assert(x * seed * back == x * (seed * back)) by (nonlinear_arith);
    vstd::arithmetic::div_mod::lemma_mul_mod_noop_right(x, seed * back, m);
    assert((seed * back) % m == 1) by (nonlinear_arith)
        requires
            seed == 0x517c_c1b7_2722_0a95int,
            back == 0x2040003d780970bdint,
            m == 0x1_0000_0000_0000_0000int,
    ;
    vstd::arithmetic::div_mod::lemma_small_mod(x as nat, m as nat);
    assert(mix(h, w) as int == (x * seed) % m);
}

/// Two different words lead to different states.
pub proof fn law_words_are_told_apart(h: u64, a: u64, b: u64)
    ensures
        mix(h, a) == mix(h, b) <==> a == b,
{
    law_mixing_can_be_undone(h, a);
    law_mixing_can_be_undone(h, b);
    let r = rotated_left_5(h);
    assert(r ^ a == r ^ b <==> a == b) by (bit_vector);
}

/// Up to eight bytes make the word whose little-endian bytes they are.
pub proof fn law_words_are_little_endian(bytes: Seq<u8>)
    requires
        bytes.len() <= 8,
    ensures
        le_word(bytes) == crate::bytes::le_value(bytes),
    decreases bytes.len(),
{
    if bytes.len() > 0 {
        let rest = bytes.drop_first();
        law_words_are_little_endian(rest);
        crate::bytes::lemma_le_value_bound(rest);
        crate::bytes::lemma_le_bound_grows(rest.len(), 7);
        assert(crate::bytes::le_bound(7) == 0x0100_0000_0000_0000) by {
            reveal_with_fuel(crate::bytes::le_bound, 8);
        }
        let w = le_word(rest);
        let b = bytes[0];
        assert((b as u64) | (w << 8) == b + 256 * w) by (bit_vector)
            requires
                w < 0x0100_0000_0000_0000,
        ;
    }
}

/// Bytes that are written in two parts, the first a number of whole words, leave the
/// state that they leave when written at once. A part of at most one word is mixed in as
/// that word, and no bytes leave the state as it is.
pub proof fn law_writes_add_up(h: u64, a: Seq<u8>, b: Seq<u8>)
    requires
        a.len() % 8 == 0,
    ensures
        mix_bytes(h, a + b) == mix_bytes(mix_bytes(h, a), b),
        mix_bytes(h, seq![]) == h,
        0 < b.len() <= 8 ==> mix_bytes(h, b) == mix(h, le_word(b)),
    decreases a.len(),
{
    if a.len() == 0 {
        assert(a + b =~= b);
    } else {
        let first = a.take(8);
        let rest = a.skip(8);
        law_writes_add_up(mix(h, le_word(first)), rest, b);
        assert((a + b).take(8) =~= first);
        assert((a + b).skip(8) =~= rest + b);
        if a.len() == 8 {
            assert(a.take(8) =~= a);
            assert(rest =~= Seq::<u8>::empty());
            assert(rest + b =~= b);
            if b.len() == 0 {
                assert(a + b =~= a);
            }
        }
    }
}

/// A fast hash for `(dm0, dm1, cm)` shape keys: rotate, xor in the next word,
/// multiply. Nothing is gained by a hash that resists chosen keys here, since
/// the keys are draw modes.
#[derive(Clone, Copy, Debug, PartialEq, Eq, Structural)]
pub struct ShapeHasher(pub u64);

impl ShapeHasher {
    #[inline(always)]
    fn mix_in(&mut self, w: u64)
        ensures
            final(self).0 == mix(old(self).0, w),
    {
        let rotated: u64 = (self.0 << 5) | (self.0 >> 59);
        self.0 = (rotated ^ w).wrapping_mul(SHAPE_HASH_SEED);
    }

    /// The hash of what was written so far.
    #[inline(always)]
    pub fn finish(&self) -> (r: u64)
        ensures
            r == self.0,
    {
        self.0
    }

    /// Writes bytes, in words of eight.
    pub fn write(&mut self, bytes: &[u8])
        ensures
            final(self).0 == mix_bytes(old(self).0, bytes@),
    {
        let n: usize = bytes.len();
        let mut start: usize = 0;
        proof {
            assert(bytes@.skip(0) =~= bytes@);
        }
        while start < n
            invariant
                n == bytes.len(),
                start <= n,
                mix_bytes(old(self).0, bytes@) == mix_bytes(self.0, bytes@.skip(start as int)),
            decreases n - start,
        {
            let end: usize = if n - start <= 8 {
                n
            } else {
                start + 8
            };
            let ghost rest = bytes@.skip(start as int);
            let mut word: u64 = 0;
            let mut i: usize = end;
            while i > start
                invariant
                    n == bytes.len(),
                    start <= i <= end <= n,
                    word == le_word(bytes@.subrange(i as int, end as int)),
                decreases i,
            {
                i = i - 1;
                let ghost tail = bytes@.subrange(i as int, end as int);
                proof {
                    assert(tail.drop_first() =~= bytes@.subrange(i + 1, end as int));
                }
                word = (bytes[i] as u64) | (word << 8);
            }
            self.mix_in(word);
            proof {
                if n - start <= 8 {
                    assert(bytes@.subrange(start as int, end as int) =~= rest);
                    assert(bytes@.skip(end as int).len() == 0);
                } else {
                    assert(bytes@.subrange(start as int, end as int) =~= rest.take(8));
                    assert(bytes@.skip(end as int) =~= rest.skip(8));
                }
            }
            start = end;
        }
    }

    /// Writes one 32-bit word.
    #[inline(always)]
    pub fn write_u32(&mut self, v: u32)
        ensures
            final(self).0 == mix(old(self).0, v as u64),
    {
        self.mix_in(v as u64);
    }

    /// Writes one 64-bit word.
    #[inline(always)]
    pub fn write_u64(&mut self, v: u64)
        ensures
            final(self).0 == mix(old(self).0, v),
    {
        self.mix_in(v);
    }

    /// Writes one machine word.
    #[inline(always)]
    pub fn write_usize(&mut self, v: usize)
        ensures
            final(self).0 == mix(old(self).0, v as u64),
    {
        self.mix_in(v as u64);
    }
}

impl Default for ShapeHasher {
    fn default() -> (r: Self)
        ensures
            r.0 == 0,
    {
        ShapeHasher(0)
    }
}

/// Builds [`ShapeHasher`]s, all of which start from the same state.
#[derive(Clone, Copy, Debug, PartialEq, Eq, Structural)]
pub struct ShapeHashBuilder;

impl ShapeHashBuilder {
    #[inline(always)]
    pub fn build_hasher(&self) -> (r: ShapeHasher)
        ensures
            r.0 == 0,
    {
        ShapeHasher(0)
    }
}

impl Default for ShapeHashBuilder {
    fn default() -> (r: Self)
        ensures
            r == ShapeHashBuilder,
    {
        ShapeHashBuilder
    }
}

} // verus!
