use iris::rex3_shape::dm0_adrmode;
use iris::rex3_shape::dm0_alphahost;
use iris::rex3_shape::dm0_ciclamp;
use iris::rex3_shape::dm0_colorhost;
use iris::rex3_shape::dm0_dosetup;
use iris::rex3_shape::dm0_endptfilter;
use iris::rex3_shape::dm0_enlspattern;
use iris::rex3_shape::dm0_enzpattern;
use iris::rex3_shape::dm0_length32;
use iris::rex3_shape::dm0_lronly;
use iris::rex3_shape::dm0_lsadvlast;
use iris::rex3_shape::dm0_lsopaque;
use iris::rex3_shape::dm0_opcode;
use iris::rex3_shape::dm0_shade;
use iris::rex3_shape::dm0_skipfirst;
use iris::rex3_shape::dm0_skiplast;
use iris::rex3_shape::dm0_stoponx;
use iris::rex3_shape::dm0_stopony;
use iris::rex3_shape::dm0_xyoffset;
use iris::rex3_shape::dm0_ystride;
use iris::rex3_shape::dm0_zpopaque;
use iris::rex3_shape::dm1_backblend;
use iris::rex3_shape::dm1_blend;
use iris::rex3_shape::dm1_blendalpha;
use iris::rex3_shape::dm1_compare;
use iris::rex3_shape::dm1_dblsrc;
use iris::rex3_shape::dm1_dfactor;
use iris::rex3_shape::dm1_dither;
use iris::rex3_shape::dm1_drawdepth;
use iris::rex3_shape::dm1_fastclear;
use iris::rex3_shape::dm1_hostdepth;
use iris::rex3_shape::dm1_logicop;
use iris::rex3_shape::dm1_planes;
use iris::rex3_shape::dm1_prefetch;
use iris::rex3_shape::dm1_rgbmode;
use iris::rex3_shape::dm1_rwdouble;
use iris::rex3_shape::dm1_rwpacked;
use iris::rex3_shape::dm1_sfactor;
use iris::rex3_shape::dm1_swapendian;
use iris::rex3_shape::dm1_yflip;
use iris::rex3_shape::DrawMode0;
use iris::rex3_shape::DrawMode1;
use iris::rex3_shape::DRAWMODE0_OPCODE_DRAW;
use iris::rex3_shape::DRAWMODE0_OPCODE_READ;
use iris::rex3_shape::DRAWMODE0_OPCODE_SCR2SCR;
use iris::rex3_shape::CLIPMODE_CIDMATCH_SHIFT;
use iris::rex3_shape::DM1_BLEND;
use iris::rex3_shape::DM1_DITHER;
use iris::rex3_shape::DM1_FASTCLEAR;
use iris::rex3_shape::host_count;
use iris::rex3_shape::host_shift;
use iris::rex3_shape::normalize_dm1;
use iris::rex3_shape::unpack;
use iris::rex3_shape::ShapeHasher;
use iris::rex3_shape::ShapeHashBuilder;

/// What normalization amounts to, bit by bit.
fn expected_norm(dm1: u32, opcode: u32) -> u32 {
    if dm1 & (1 << 17) != 0 {
        dm1 & !(1 << 18)
    } else if opcode == DRAWMODE0_OPCODE_SCR2SCR {
        dm1 & !(1 << 16)
    } else {
        dm1
    }
}

#[test]
fn matches_legacy_jit_normalization() {
    // Walk the three bits that matter against every opcode, plus a spread of
    // unrelated bit patterns to prove nothing else is disturbed.
    for extra in [0x0000_0000, 0xFFFF_FFFF, 0x3000_F019, 0x5A5A_5A5A, 0x0007_0000] {
        for bits in 0..8u32 {
            let dm1 = extra
                | if bits & 1 != 0 { DM1_DITHER } else { 0 }
                | if bits & 2 != 0 { DM1_FASTCLEAR } else { 0 }
                | if bits & 4 != 0 { DM1_BLEND } else { 0 };
            for opcode in [
                DRAWMODE0_OPCODE_DRAW,
                DRAWMODE0_OPCODE_SCR2SCR,
                DRAWMODE0_OPCODE_READ,
            ] {
                assert_eq!(
                    normalize_dm1(dm1, opcode),
                    expected_norm(dm1, opcode),
                    "dm1={dm1:#010x} opcode={opcode}"
                );
            }
        }
    }
}

#[test]
fn fastclear_beats_scr2scr() {
    // Both conditions true: fastclear must win, so BLEND clears and DITHER
    // survives. Getting this order wrong is invisible until a fastclear
    // scr2scr draw keys differently in two engines.
    let dm1 = DM1_FASTCLEAR | DM1_BLEND | DM1_DITHER;
    let got = normalize_dm1(dm1, DRAWMODE0_OPCODE_SCR2SCR);
    assert_eq!(got & DM1_BLEND, 0, "fastclear must clear blend");
    assert_eq!(got & DM1_DITHER, DM1_DITHER, "dither must survive fastclear");
}

#[test]
fn leaves_unrelated_modes_alone() {
    let dm1 = 0x3000_F019;
    assert_eq!(normalize_dm1(dm1, DRAWMODE0_OPCODE_DRAW), dm1);
}

/// Sample values that exercise every bit position: all-clear, all-set, each
/// single bit alone, and a few real drawmodes from the saved corpus.
fn samples() -> Vec<u32> {
    let mut v = vec![0x0000_0000, 0xFFFF_FFFF, 0x3000_F019, 0x0306, 0x0327, 0x032A];
    for bit in 0..32 {
        v.push(1 << bit);
        v.push(!(1u32 << bit));
    }
    v
}

/// The extractors and the accessors read the same bits.
#[test]
fn extractors_match_bitfield_accessors() {
    for v in samples() {
        let d0 = DrawMode0(v);
        assert_eq!(dm0_opcode(v),      d0.opcode(),           "opcode {v:#010x}");
        assert_eq!(dm0_adrmode(v),     d0.adrmode(),          "adrmode {v:#010x}");
        assert_eq!(dm0_dosetup(v),     d0.dosetup() as u32,   "dosetup {v:#010x}");
        assert_eq!(dm0_colorhost(v),   d0.colorhost() as u32, "colorhost {v:#010x}");
        assert_eq!(dm0_alphahost(v),   d0.alphahost() as u32, "alphahost {v:#010x}");
        assert_eq!(dm0_stoponx(v),     d0.stoponx() as u32,   "stoponx {v:#010x}");
        assert_eq!(dm0_stopony(v),     d0.stopony() as u32,   "stopony {v:#010x}");
        assert_eq!(dm0_skipfirst(v),   d0.skipfirst() as u32, "skipfirst {v:#010x}");
        assert_eq!(dm0_skiplast(v),    d0.skiplast() as u32,  "skiplast {v:#010x}");
        assert_eq!(dm0_enzpattern(v),  d0.enzpattern() as u32,  "enzpattern {v:#010x}");
        assert_eq!(dm0_enlspattern(v), d0.enlspattern() as u32, "enlspattern {v:#010x}");
        assert_eq!(dm0_lsadvlast(v),   d0.lsadvlast() as u32, "lsadvlast {v:#010x}");
        assert_eq!(dm0_length32(v),    d0.length32() as u32,  "length32 {v:#010x}");
        assert_eq!(dm0_zpopaque(v),    d0.zpopaque() as u32,  "zpopaque {v:#010x}");
        assert_eq!(dm0_lsopaque(v),    d0.lsopaque() as u32,  "lsopaque {v:#010x}");
        assert_eq!(dm0_shade(v),       d0.shade() as u32,     "shade {v:#010x}");
        assert_eq!(dm0_lronly(v),      d0.lronly() as u32,    "lronly {v:#010x}");
        assert_eq!(dm0_xyoffset(v),    d0.xyoffset() as u32,  "xyoffset {v:#010x}");
        assert_eq!(dm0_ciclamp(v),     d0.ciclamp() as u32,   "ciclamp {v:#010x}");
        assert_eq!(dm0_endptfilter(v), d0.endptfilter() as u32, "endptfilter {v:#010x}");
        assert_eq!(dm0_ystride(v),     d0.ystride() as u32,   "ystride {v:#010x}");

        let d1 = DrawMode1(v);
        assert_eq!(dm1_planes(v),     d1.planes(),            "planes {v:#010x}");
        assert_eq!(dm1_drawdepth(v),  d1.drawdepth(),         "drawdepth {v:#010x}");
        assert_eq!(dm1_dblsrc(v),     d1.dblsrc() as u32,     "dblsrc {v:#010x}");
        assert_eq!(dm1_yflip(v),      d1.yflip() as u32,      "yflip {v:#010x}");
        assert_eq!(dm1_rwpacked(v),   d1.rwpacked() as u32,   "rwpacked {v:#010x}");
        assert_eq!(dm1_hostdepth(v),  d1.hostdepth(),         "hostdepth {v:#010x}");
        assert_eq!(dm1_rwdouble(v),   d1.rwdouble() as u32,   "rwdouble {v:#010x}");
        assert_eq!(dm1_swapendian(v), d1.swapendian() as u32, "swapendian {v:#010x}");
        assert_eq!(dm1_compare(v),    d1.compare(),           "compare {v:#010x}");
        assert_eq!(dm1_rgbmode(v),    d1.rgbmode() as u32,    "rgbmode {v:#010x}");
        assert_eq!(dm1_dither(v),     d1.dither() as u32,     "dither {v:#010x}");
        assert_eq!(dm1_fastclear(v),  d1.fastclear() as u32,  "fastclear {v:#010x}");
        assert_eq!(dm1_blend(v),      d1.blend() as u32,      "blend {v:#010x}");
        assert_eq!(dm1_sfactor(v),    d1.sfactor(),           "sfactor {v:#010x}");
        assert_eq!(dm1_dfactor(v),    d1.dfactor(),           "dfactor {v:#010x}");
        assert_eq!(dm1_backblend(v),  d1.backblend() as u32,  "backblend {v:#010x}");
        assert_eq!(dm1_prefetch(v),   d1.prefetch() as u32,   "prefetch {v:#010x}");
        assert_eq!(dm1_blendalpha(v), d1.blendalpha() as u32, "blendalpha {v:#010x}");
        assert_eq!(dm1_logicop(v),    d1.logicop(),           "logicop {v:#010x}");
    }
}

const CID_OFF: u32 = 0xF << CLIPMODE_CIDMATCH_SHIFT;

/// Dead blend inputs fold to zero, so drawmodes differing only in stale
/// sfactor/dfactor bits share one monomorphisation.
#[test]
fn blend_inputs_fold_when_not_blending() {
    let dm1_a = 0 << 19; // sfactor 0
    let dm1_b = 5 << 19; // sfactor 5, blend still off
    let a = unpack(DRAWMODE0_OPCODE_DRAW, dm1_a, CID_OFF);
    let b = unpack(DRAWMODE0_OPCODE_DRAW, dm1_b, CID_OFF);
    assert_eq!(a, b, "stale sfactor must not create a second shape");
    assert_eq!(a.sfactor, 0);
}

/// Per rex3.pdf §3.5.5 fastclear supports no per-pixel operation, so every
/// variant collapses onto one shape regardless of the stale bits around it.
#[test]
fn fastclear_collapses_the_pipeline() {
    let plain = DM1_FASTCLEAR;
    let noisy = DM1_FASTCLEAR
        | DM1_BLEND
        | DM1_DITHER
        | (0x6 << 28)          // logicop XOR
        | (0x3 << 12)          // compare LE
        | (5 << 19) | (2 << 22); // sfactor/dfactor
    let dm0_noisy = DRAWMODE0_OPCODE_DRAW
        | (1 << 12)  // enzpattern
        | (1 << 18); // shade

    let a = unpack(DRAWMODE0_OPCODE_DRAW, plain, CID_OFF);
    let b = unpack(dm0_noisy, noisy, CID_OFF);
    assert_eq!(a, b, "fastclear variants must share one shape");
    assert_eq!(a.fastclear, 1);
    assert_eq!(a.blend, 0);
    assert_eq!(a.dither, 0);
    assert_eq!(a.logicop, 0);
    assert_eq!(a.shade, 0);
    assert_eq!(a.enzpattern, 0);
    assert_eq!(a.compare, 7, "fastclear bypasses afunction");
}

/// Hardware disables FASTCLEAR when CID checking is on (rex3.pdf bit 17,
/// §3.5.5, and the programming notes), so the fold must not apply there —
/// the draw is an ordinary one and its fields stay live.
#[test]
fn fastclear_does_not_fold_when_cid_checking_enabled() {
    let dm1 = DM1_FASTCLEAR | (0x6 << 28); // logicop XOR left live
    let cid_on = 0x7 << CLIPMODE_CIDMATCH_SHIFT; // != 0xF
    let f = unpack(DRAWMODE0_OPCODE_DRAW, dm1, cid_on);
    assert_eq!(f.fastclear, 0, "CID checking disables fastclear");
    assert_eq!(f.logicop, 0x6, "ordinary draw keeps its logic op");
    assert_eq!(f.cidtest, 1);
}

/// colorhost beats fastclear, matching the JIT's `!is_hostw` guard.
#[test]
fn colorhost_beats_fastclear() {
    let dm0 = DRAWMODE0_OPCODE_DRAW | (1 << 6); // colorhost
    let f = unpack(dm0, DM1_FASTCLEAR, CID_OFF);
    assert_eq!(f.fastclear, 0);
    assert_eq!(f.colorhost, 1);
}

/// Host-transfer shape is dead when no host pixels move.
#[test]
fn host_fields_fold_for_non_host_draws() {
    let dm1 = (1 << 7) | (0x2 << 8) | (1 << 10); // rwpacked, hostdepth, rwdouble
    let f = unpack(DRAWMODE0_OPCODE_DRAW, dm1, CID_OFF);
    assert_eq!((f.rwpacked, f.hostdepth, f.rwdouble), (0, 0, 0));
    // …but a READ moves host pixels, so they stay live.
    let r = unpack(DRAWMODE0_OPCODE_READ, dm1, CID_OFF);
    assert_eq!((r.rwpacked, r.hostdepth, r.rwdouble), (1, 2, 1));
}

#[test]
fn cidtest_is_on_off_not_the_nibble() {
    let off = unpack(DRAWMODE0_OPCODE_DRAW, 0, CID_OFF);
    assert_eq!(off.cidtest, 0, "0xF permits every CID — no test");
    // Every other nibble, including 0x0 (permit nothing), emits the test.
    for nib in 0..0xFu32 {
        let f = unpack(DRAWMODE0_OPCODE_DRAW, 0, nib << CLIPMODE_CIDMATCH_SHIFT);
        assert_eq!(f.cidtest, 1, "nibble {nib:#x} must emit the test");
    }
}

/// Pixels and bits of a host word, at every depth.
#[test]
fn host_count_shift_cover_all_depths() {
    // Unpacked: always one pixel, no shift.
    assert_eq!((host_count(0), host_shift(0)), (1, 0));
    for depth in 0..4u32 {
        let packed = (1 << 7) | (depth << 8);
        let dbl = packed | (1 << 10);
        let expect_count = match depth { 0 | 1 => 4, 2 => 2, _ => 1 };
        let expect_dbl = match depth { 0 | 1 => 8, 2 => 4, _ => 2 };
        let expect_shift = match depth { 0 | 1 => 8, 2 => 16, _ => 32 };
        assert_eq!(host_count(packed), expect_count, "depth {depth}");
        assert_eq!(host_count(dbl), expect_dbl, "depth {depth} rwdouble");
        assert_eq!(host_shift(packed), expect_shift, "depth {depth}");
    }
}

#[test]
fn normalization_is_idempotent() {
    for v in samples() {
        for opcode in [DRAWMODE0_OPCODE_DRAW, DRAWMODE0_OPCODE_SCR2SCR, DRAWMODE0_OPCODE_READ] {
            let once = normalize_dm1(v, opcode);
            assert_eq!(normalize_dm1(once, opcode), once);
        }
    }
}

#[test]
fn shapes_ignore_what_normalization_clears() {
    for v in samples() {
        for opcode in [DRAWMODE0_OPCODE_DRAW, DRAWMODE0_OPCODE_SCR2SCR, DRAWMODE0_OPCODE_READ] {
            assert_eq!(
                unpack(opcode, v, CID_OFF),
                unpack(opcode, normalize_dm1(v, opcode), CID_OFF)
            );
        }
    }
}

#[test]
fn packed_host_words_are_full() {
    for depth in 0..4u32 {
        let packed = (1 << 7) | (depth << 8);
        assert_eq!(host_count(packed) * host_shift(packed), 32);
        assert_eq!(host_count(packed | (1 << 10)) * host_shift(packed | (1 << 10)), 64);
    }
}

#[test]
fn shape_hashes_mix_every_word() {
    let b = ShapeHashBuilder::default();
    let mut x = b.build_hasher();
    x.write_u32(1);
    x.write_u32(2);
    let mut y = b.build_hasher();
    y.write_u32(2);
    y.write_u32(1);
    assert_ne!(x.finish(), y.finish());
    let mut z = ShapeHasher::default();
    z.write_u32(1);
    z.write_u32(2);
    assert_eq!(x.finish(), z.finish());
}

#[test]
fn lines_have_no_fastclear() {
    let dm1 = DM1_FASTCLEAR | (0x6 << 28);
    let cid_off = 0xF << CLIPMODE_CIDMATCH_SHIFT;
    for adrmode in 0..8u32 {
        let f = unpack(DRAWMODE0_OPCODE_DRAW | (adrmode << 2) | (1 << 18), dm1, cid_off);
        let area = adrmode < 2;
        assert_eq!(f.fastclear, area as u32, "adrmode {adrmode}");
        assert_eq!(f.logicop, if area { 0 } else { 6 }, "adrmode {adrmode}");
        assert_eq!(f.shade, if area { 0 } else { 1 }, "adrmode {adrmode}");
        assert_eq!(f.compare, if area { 7 } else { 0 }, "adrmode {adrmode}");
    }
}
