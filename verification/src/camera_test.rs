//! The camera test: fields of the host camera as pictures, with a status line, for a
//! preview that needs no running machine.
use vstd::prelude::*;
use crate::bytes::copy_bytes;
use crate::text::owned;

verus! {

// ---------------------------------------------------------------------------
// Colours
// ---------------------------------------------------------------------------

/// `v` in 256ths, rounded down and held to what a byte can say.
pub open spec fn level(v: int) -> u8 {
    if v < 0 {
        0
    } else if v / 256 > 255 {
        255
    } else {
        (v / 256) as u8
    }
}

/// The pixel of a luma and two chroma values (BT.601, limited range): red, green,
/// blue, and full opacity.
pub open spec fn rgba(y: u8, u: u8, v: u8) -> Seq<u8> {
    let c = y - 16;
    let d = u - 128;
    let e = v - 128;
    seq![
        level(298 * c + 409 * e + 128),
        level(298 * c - 100 * d - 208 * e + 128),
        level(298 * c + 516 * d + 128),
        255u8,
    ]
}

fn level_of(v: i32) -> (r: u8)
    ensures
        r == level(v as int),
{
    if v < 0 {
        0
    } else if v / 256 > 255 {
        255
    } else {
        (v / 256) as u8
    }
}

/// The pixel of a luma and two chroma values.
pub fn yuv_to_rgba(y: u8, u: u8, v: u8) -> (r: [u8; 4])
    ensures
        r@ == rgba(y, u, v),
{
    let c: i32 = y as i32 - 16;
    let d: i32 = u as i32 - 128;
    let e: i32 = v as i32 - 128;
    let out: [u8; 4] = [
        level_of(298 * c + 409 * e + 128),
        level_of(298 * c - 100 * d - 208 * e + 128),
        level_of(298 * c + 516 * d + 128),
        255,
    ];
    proof {
        assert(out@ =~= rgba(y, u, v));
    }
    out
}

/// Without colour, red, green and blue are equal, and brighter where the luma is.
pub proof fn law_neutral_chroma_is_grey(y: u8, brighter: u8)
    requires
        y <= brighter,
    ensures
        rgba(y, 128, 128)[0] == rgba(y, 128, 128)[1],
        rgba(y, 128, 128)[1] == rgba(y, 128, 128)[2],
        rgba(y, 128, 128)[0] <= rgba(brighter, 128, 128)[0],
{
}

// ---------------------------------------------------------------------------
// Fields
// ---------------------------------------------------------------------------

/// A video field, two pixels in four bytes: U, Y of the first, V, Y of the second.
#[derive(Clone, Debug)]
pub struct Field {
    pub width: u32,
    pub height: u32,
    pub pixels: Vec<u8>,
}

/// The pixel at column `x` of row `y`. A pixel that the field has no bytes for, and
/// the last of a row of odd width, is all zeros.
pub open spec fn pixel(field: Field, y: int, x: int) -> Seq<u8> {
    let w = field.width as int;
    let i = y * w * 2 + x / 2 * 4;
    if x / 2 < w / 2 && i + 3 < field.pixels@.len() {
        rgba(field.pixels@[i + 1 + x % 2 * 2], field.pixels@[i], field.pixels@[i + 2])
    } else {
        seq![0u8, 0u8, 0u8, 0u8]
    }
}

/// The picture of a field: its pixels row by row, four bytes each.
pub open spec fn picture(field: Field) -> Seq<u8> {
    Seq::new(
        (field.width * field.height * 4) as nat,
        |k: int|
            pixel(field, k / 4 / field.width as int, k / 4 % field.width as int)[k % 4],
    )
}

/// The picture of a field.
pub fn uyvy_field_to_rgba(field: &Field) -> (r: Vec<u8>)
    requires
        field.width * field.height * 4 <= usize::MAX,
    ensures
        r@ == picture(*field),
{
    let w: usize = field.width as usize;
    let h: usize = field.height as usize;
    let mut out: Vec<u8> = Vec::new();
    proof {
        assert(w * h >= 0) by (nonlinear_arith)
            requires
                w >= 0,
                h >= 0,
        ;
        assert(field.width * field.height * 4 == 4 * (w * h)) by (nonlinear_arith)
            requires
                field.width == w,
                field.height == h,
        ;
    }
    let count: usize = w * h;
    let mut p: usize = 0;
    while p < count
        invariant
            p <= count,
            count == w * h,
            w == field.width,
            h == field.height,
            field.width * field.height * 4 == 4 * count,
            4 * count <= usize::MAX,
            out@ == picture(*field).take(4 * p),
        decreases count - p,
    {
        proof {
            assert(w > 0) by (nonlinear_arith)
                requires
                    w * h > 0,
                    w >= 0,
            ;
            vstd::arithmetic::div_mod::lemma_fundamental_div_mod(p as int, w as int);
            vstd::arithmetic::div_mod::lemma_mod_bound(p as int, w as int);
            vstd::arithmetic::div_mod::lemma_div_pos_is_pos(p as int, w as int);
            let q = p as int / w as int;
            assert(w * q == q * w) by (nonlinear_arith);
            assert(q * w >= 0) by (nonlinear_arith)
                requires
                    q >= 0,
                    w > 0,
            ;
        }
        let y: usize = p / w;
        let x: usize = p % w;
        let i: usize = y * w * 2 + x / 2 * 4;
        let ghost here = pixel(*field, y as int, x as int);
        let px: [u8; 4] = if x / 2 < w / 2 && i + 3 < field.pixels.len() {
            yuv_to_rgba(field.pixels[i + 1 + x % 2 * 2], field.pixels[i], field.pixels[i + 2])
        } else {
            [0, 0, 0, 0]
        };
        proof {
            assert(px@ =~= here);
        }
        out.push(px[0]);
        out.push(px[1]);
        out.push(px[2]);
        out.push(px[3]);
        proof {
            let whole = picture(*field);
            assert forall|k: int| 4 * p <= k < 4 * p + 4 implies whole[k] == here[k - 4 * p] by {
                assert(k / 4 == p && k % 4 == k - 4 * p);
            }
            assert(out@ =~= whole.take(4 * (p + 1)));
        }
        p = p + 1;
    }
    proof {
        assert(out@ =~= picture(*field));
    }
    out
}

// ---------------------------------------------------------------------------
// The test
// ---------------------------------------------------------------------------

/// A picture: its width, height and bytes.
pub type Picture = (u32, u32, Vec<u8>);

/// A picture as plain values.
pub open spec fn picture_view(p: Option<Picture>) -> Option<(u32, u32, Seq<u8>)> {
    match p {
        Some((w, h, bytes)) => Some((w, h, bytes@)),
        None => None,
    }
}

/// What the worker of the test leaves for the preview.
#[derive(Debug)]
pub struct CameraTest {
    status: String,
    error: Option<String>,
    frame: Option<Picture>,
    seq: u64,
}

/// The number of the picture after one with this number.
pub open spec fn next_seq(seq: u64) -> u64 {
    if seq == u64::MAX {
        0
    } else {
        (seq + 1) as u64
    }
}

impl CameraTest {
    /// The status line.
    pub closed spec fn line(self) -> Seq<char> {
        self.status@
    }

    /// Why the camera could not be opened.
    pub closed spec fn failure(self) -> Option<Seq<char>> {
        crate::text::opt_text(self.error)
    }

    /// The latest picture.
    pub closed spec fn latest(self) -> Option<(u32, u32, Seq<u8>)> {
        picture_view(self.frame)
    }

    /// Its number.
    pub closed spec fn number(self) -> u64 {
        self.seq
    }

    /// A test whose camera is being opened.
    pub fn start() -> (r: Self)
        ensures
            r.line() == "opening camera\u{2026}"@,
            r.failure() is None,
            r.latest() is None,
            r.number() == 0,
    {
        CameraTest { status: owned("opening camera\u{2026}"), error: None, frame: None, seq: 0 }
    }

    /// The camera could not be opened.
    pub fn on_open_error(&mut self, e: String)
        ensures
            final(self).failure() == Some(e@),
            final(self).line() == old(self).line(),
            final(self).latest() == old(self).latest(),
            final(self).number() == old(self).number(),
    {
        self.error = Some(e);
    }

    /// The camera gave a field: its picture and the status line replace what was
    /// there, and an error is over.
    pub fn on_field(&mut self, field: &Field, status: String)
        requires
            field.width * field.height * 4 <= usize::MAX,
        ensures
            final(self).line() == status@,
            final(self).failure() is None,
            final(self).latest() == Some((field.width, field.height, picture(*field))),
            final(self).number() == next_seq(old(self).number()),
    {
        let bytes = uyvy_field_to_rgba(field);
        self.status = status;
        self.frame = Some((field.width, field.height, bytes));
        self.seq = self.seq.wrapping_add(1);
        self.error = None;
    }

    pub fn status(&self) -> (r: String)
        ensures
            r@ == self.line(),
    {
        self.status.clone()
    }

    pub fn error(&self) -> (r: Option<String>)
        ensures
            crate::text::opt_text(r) == self.failure(),
    {
        crate::text::copy_opt(&self.error)
    }

    /// The latest picture, if it is another than the one with the number `last_seq`,
    /// which then becomes its number.
    pub fn take_new_frame(&self, last_seq: &mut u64) -> (r: Option<Picture>)
        ensures
            *final(last_seq) == self.number(),
            picture_view(r) == if *old(last_seq) == self.number() {
                None
            } else {
                self.latest()
            },
    {
        if self.seq != *last_seq {
            *last_seq = self.seq;
            match &self.frame {
                Some((w, h, bytes)) => Some((*w, *h, copy_bytes(bytes.as_slice()))),
                None => None,
            }
        } else {
            None
        }
    }
}

/// A field is always something new: its number differs from the last.
pub proof fn law_each_field_is_new(seq: u64)
    ensures
        next_seq(seq) != seq,
{
}

/// A byte is the number of whole 256ths in a value, held to what a byte can say.
pub proof fn law_levels(v: int)
    ensures
        v < 0 ==> level(v) == 0,
        0 <= v < 65_536 ==> 256 * level(v) <= v < 256 * level(v) + 256,
        v >= 65_536 ==> level(v) == 255,
{
}

/// The colours of a pixel by BT.601 in limited range: luma 16 is black and 235 is white; V adds
/// to red and takes from green, U adds to blue and takes from green, and neither touches the
/// third colour. The pixel is opaque.
pub proof fn law_colours(y: u8, u: u8, v: u8, other: u8)
    ensures
        rgba(y, u, v).len() == 4,
        rgba(y, u, v)[3] == 255,
        rgba(y, u, v)[0] == rgba(y, other, v)[0],
        rgba(y, u, v)[2] == rgba(y, u, other)[2],
        v <= other ==> rgba(y, u, v)[0] <= rgba(y, u, other)[0] && rgba(y, u, v)[1] >= rgba(
            y,
            u,
            other,
        )[1],
        u <= other ==> rgba(y, u, v)[2] <= rgba(y, other, v)[2] && rgba(y, u, v)[1] >= rgba(
            y,
            other,
            v,
        )[1],
        y <= other ==> rgba(y, u, v)[0] <= rgba(other, u, v)[0] && rgba(y, u, v)[1] <= rgba(
            other,
            u,
            v,
        )[1] && rgba(y, u, v)[2] <= rgba(other, u, v)[2],
        ({
            let red = 298 * y + 409 * v - 56_992;
            let green = 298 * y - 100 * u - 208 * v + 34_784;
            let blue = 298 * y + 516 * u - 70_688;
            &&& 0 <= red < 65_536 ==> 256 * rgba(y, u, v)[0] <= red < 256 * rgba(y, u, v)[0] + 256
            &&& 0 <= green < 65_536 ==> 256 * rgba(y, u, v)[1] <= green < 256 * rgba(y, u, v)[1]
                + 256
            &&& 0 <= blue < 65_536 ==> 256 * rgba(y, u, v)[2] <= blue < 256 * rgba(y, u, v)[2] + 256
            &&& red < 0 ==> rgba(y, u, v)[0] == 0
            &&& green < 0 ==> rgba(y, u, v)[1] == 0
            &&& blue < 0 ==> rgba(y, u, v)[2] == 0
            &&& red >= 65_536 ==> rgba(y, u, v)[0] == 255
            &&& green >= 65_536 ==> rgba(y, u, v)[1] == 255
            &&& blue >= 65_536 ==> rgba(y, u, v)[2] == 255
        }),
{
}

/// Where the pixels of a field come from: pair `p` of a row has the four bytes that follow
/// those of the rows and pairs before it, two for each pixel. They are U, the luma of the first
/// pixel, V, and the luma of the second. A pair that the field has no bytes for is empty.
pub proof fn law_pixels_of_a_field(field: Field, y: int, p: int)
    requires
        0 <= y,
        0 <= p,
        2 * p + 1 < field.width,
    ensures
        ({
            let at = 2 * (y * field.width) + 4 * p;
            let b = field.pixels@;
            &&& at + 4 <= b.len() ==> {
                &&& pixel(field, y, 2 * p) == rgba(b[at + 1], b[at], b[at + 2])
                &&& pixel(field, y, 2 * p + 1) == rgba(b[at + 3], b[at], b[at + 2])
            }
            &&& at + 4 > b.len() ==> {
                &&& pixel(field, y, 2 * p) == seq![0u8, 0, 0, 0]
                &&& pixel(field, y, 2 * p + 1) == seq![0u8, 0, 0, 0]
            }
        }),
        field.width % 2 == 1 ==> pixel(field, y, field.width - 1) == seq![0u8, 0, 0, 0],
{
    let w = field.width as int;
    assert(y * w * 2 == 2 * (y * w)) by (nonlinear_arith);
    assert((2 * p) / 2 == p && (2 * p + 1) / 2 == p);
    assert((2 * p) % 2 == 0 && (2 * p + 1) % 2 == 1);
    assert(p < w / 2);
}

/// Where a pixel stands in the picture: row by row, four bytes each.
pub proof fn law_pixels_of_a_picture(field: Field, y: int, x: int, c: int)
    requires
        0 <= y < field.height,
        0 <= x < field.width,
        0 <= c < 4,
    ensures
        picture(field).len() == 4 * (field.width * field.height),
        0 <= 4 * (y * field.width + x) + c < picture(field).len(),
        picture(field)[4 * (y * field.width + x) + c] == pixel(field, y, x)[c],
{
    let w = field.width as int;
    let h = field.height as int;
    let n = y * w + x;
    let k = 4 * n + c;
    assert(w * h * 4 == 4 * (w * h)) by (nonlinear_arith);
    assert(0 <= n < w * h) by (nonlinear_arith)
        requires
            n == y * w + x,
            0 <= y < h,
            0 <= x < w,
    ;
    assert(k / 4 == n && k % 4 == c);
    vstd::arithmetic::div_mod::lemma_fundamental_div_mod_converse(n, w, y, x);
}

/// Pictures are numbered one by one, and start again after the last number.
pub proof fn law_pictures_are_numbered(seq: u64)
    ensures
        seq < u64::MAX ==> next_seq(seq) == seq + 1,
        seq == u64::MAX ==> next_seq(seq) == 0,
{
}

/// A picture is taken for what its parts say.
pub proof fn law_views_of_pictures(w: u32, h: u32, bytes: Vec<u8>)
    ensures
        picture_view(Some((w, h, bytes))) == Some((w, h, bytes@)),
        picture_view(None) is None,
{
}

} // verus!
