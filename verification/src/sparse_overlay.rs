//! Reads and writes through a sparse overlay, hunk by hunk.
use vstd::prelude::*;
use crate::chd_overlay::ChdGeometry;
use crate::chd_overlay::OverlayFile;
use crate::disk_error::invalid_data;
use crate::disk_error::invalid_input;
use crate::disk_error::DiskError;
use crate::disk_error::DiskErrorKind;
use crate::text::owned;
use crate::text::push_decimal;

verus! {

// ---------------------------------------------------------------------------
// The model: what the guest sees
// ---------------------------------------------------------------------------

/// What an overlay holds: the hunks that its file stores, and the hunks that its
/// bitmap marks.
pub struct HunkModel {
    pub stored: Map<u32, Seq<u8>>,
    pub zero: Set<u32>,
}

/// A hunk of zeros.
pub open spec fn zeros(hb: nat) -> Seq<u8> {
    Seq::new(hb, |i: int| 0u8)
}

/// Every byte is zero.
pub open spec fn all_zeros(s: Seq<u8>) -> bool {
    forall|i: int| 0 <= i < s.len() ==> #[trigger] s[i] == 0
}

/// What the overlay file gives for a hunk: what it stored, or zeros.
pub open spec fn file_hunk(m: HunkModel, hb: nat, h: u32) -> Seq<u8> {
    if m.stored.contains_key(h) {
        m.stored[h]
    } else {
        zeros(hb)
    }
}

/// The overlay owns a hunk.
pub open spec fn owned_in(m: HunkModel, h: u32) -> bool {
    m.stored.contains_key(h) || m.zero.contains(h)
}

/// What the guest sees in a hunk: the overlay's where it owns the hunk, else the
/// base's.
pub open spec fn seen_hunk(base: Seq<u8>, m: HunkModel, hb: nat, h: u32) -> Seq<u8> {
    if owned_in(m, h) {
        file_hunk(m, hb, h)
    } else {
        base.subrange(h * hb, h * hb + hb)
    }
}

/// What the guest sees on the disk. The base ends with a whole hunk.
pub open spec fn seen(base: Seq<u8>, m: HunkModel, hb: nat) -> Seq<u8> {
    Seq::new(base.len(), |i: int| seen_hunk(base, m, hb, (i / hb as int) as u32)[i % hb as int])
}

/// The disk has whole hunks, fewer than 2^32 of them, and what is stored has the
/// size of a hunk.
pub open spec fn model_wf(base: Seq<u8>, m: HunkModel, hb: nat) -> bool {
    &&& hb > 0
    &&& base.len() % hb == 0
    &&& base.len() as int / hb as int <= u32::MAX
    &&& forall|h: u32| #[trigger] m.stored.contains_key(h) ==> m.stored[h].len() == hb
}

/// The overlay file after a hunk is written to it: a hunk of zeros that was not
/// stored is not stored then either.
pub open spec fn file_written(stored: Map<u32, Seq<u8>>, h: u32, content: Seq<u8>) -> Map<
    u32,
    Seq<u8>,
> {
    if all_zeros(content) && !stored.contains_key(h) {
        stored
    } else {
        stored.insert(h, content)
    }
}

/// The overlay after a hunk is written through it: a hunk of zeros is marked before
/// it is written.
pub open spec fn hunk_written(m: HunkModel, h: u32, content: Seq<u8>) -> HunkModel {
    HunkModel {
        stored: file_written(m.stored, h, content),
        zero: if all_zeros(content) { m.zero.insert(h) } else { m.zero },
    }
}

/// A bitmap marks the hunks that the model marks.
pub open spec fn marks_as(bitmap: Seq<u8>, m: HunkModel) -> bool {
    forall|h: u32| #[trigger] m.zero.contains(h) == crate::chd_overlay::marked(bitmap, h)
}

/// A hunk reads back as it was written, also one that was cleared: it does not fall
/// through to the base. Other hunks are as they were.
pub proof fn law_hunk_reads_back(
    base: Seq<u8>,
    m: HunkModel,
    hb: nat,
    h: u32,
    content: Seq<u8>,
    other: u32,
)
    requires
        content.len() == hb,
    ensures
        seen_hunk(base, hunk_written(m, h, content), hb, h) == content,
        other != h ==> seen_hunk(base, hunk_written(m, h, content), hb, other) == seen_hunk(
            base,
            m,
            hb,
            other,
        ),
{
    if all_zeros(content) {
        assert(content =~= zeros(hb));
    }
}

/// Marking a cleared hunk comes first. A write that fails after that leaves the
/// hunk reading as zeros or as what the overlay had stored for it, and never as
/// the base's old data.
pub proof fn law_marking_first_never_revives_the_base(base: Seq<u8>, m: HunkModel, hb: nat, h: u32)
    ensures
        ({
            let marked = HunkModel { zero: m.zero.insert(h), ..m };
            seen_hunk(base, marked, hb, h) == file_hunk(m, hb, h)
        }),
{
}

// ---------------------------------------------------------------------------
// Pieces
// ---------------------------------------------------------------------------

/// The part of a transfer that falls into one hunk.
#[derive(Clone, Copy, Debug, PartialEq, Eq, Structural)]
pub struct HunkPiece {
    pub hunk: u32,
    /// Where in the hunk the part starts.
    pub within: usize,
    /// Bytes of the part.
    pub len: usize,
    /// Bytes of the transfer before the part.
    pub done: usize,
}

/// The pieces split the first `upto` bytes of a transfer of `total` bytes at
/// `offset`, each as long as its hunk allows.
pub open spec fn splits(
    pieces: Seq<HunkPiece>,
    offset: int,
    upto: int,
    total: int,
    hb: int,
) -> bool
    decreases pieces.len(),
{
    if pieces.len() == 0 {
        upto == 0
    } else {
        let p = pieces.last();
        &&& p.len > 0
        &&& p.done + p.len == upto
        &&& upto <= total
        &&& p.hunk == (offset + p.done) / hb
        &&& p.within == (offset + p.done) % hb
        &&& p.within + p.len <= hb
        &&& p.within + p.len == hb || upto == total
        &&& splits(pieces.drop_last(), offset, p.done as int, total, hb)
    }
}

/// The overlay after one piece of a write: what the guest saw in the hunk, with the
/// new bytes over it.
pub open spec fn piece_written(
    base: Seq<u8>,
    m: HunkModel,
    hb: nat,
    p: HunkPiece,
    data: Seq<u8>,
) -> HunkModel {
    let now = seen_hunk(base, m, hb, p.hunk);
    let chunk = data.subrange(p.done as int, p.done + p.len);
    hunk_written(m, p.hunk, crate::cow_disk::written(now, p.within as int, chunk))
}

/// The overlay after the pieces of a write.
pub open spec fn pieces_written(
    base: Seq<u8>,
    m: HunkModel,
    hb: nat,
    pieces: Seq<HunkPiece>,
    data: Seq<u8>,
) -> HunkModel
    decreases pieces.len(),
{
    if pieces.len() == 0 {
        m
    } else {
        piece_written(
            base,
            pieces_written(base, m, hb, pieces.drop_last(), data),
            hb,
            pieces.last(),
            data,
        )
    }
}

/// The bytes that the pieces of a read collect.
pub open spec fn pieces_read(base: Seq<u8>, m: HunkModel, hb: nat, pieces: Seq<HunkPiece>) -> Seq<
    u8,
>
    decreases pieces.len(),
{
    if pieces.len() == 0 {
        seq![]
    } else {
        let p = pieces.last();
        pieces_read(base, m, hb, pieces.drop_last()) + seen_hunk(base, m, hb, p.hunk).subrange(
            p.within as int,
            p.within + p.len,
        )
    }
}

proof fn lemma_hunk_of(i: int, hb: int, n: int)
    requires
        hb > 0,
        0 <= i < n,
        n % hb == 0,
        n / hb <= u32::MAX,
    ensures
        i == hb * (i / hb) + i % hb,
        0 <= i % hb < hb,
        0 <= i / hb < n / hb,
        (i / hb) * hb + hb <= n,
{
    vstd::arithmetic::div_mod::lemma_fundamental_div_mod(i, hb);
    vstd::arithmetic::div_mod::lemma_fundamental_div_mod(n, hb);
    let q = i / hb;
    let k = n / hb;
    assert(q < k) by (nonlinear_arith)
        requires
            hb * q <= i,
            i < n,
            n == hb * k,
            hb > 0,
    ;
    assert(q >= 0) by (nonlinear_arith)
        requires
            i == hb * q + i % hb,
            0 <= i,
            i % hb < hb,
            hb > 0,
    ;
    assert(q * hb + hb <= n) by (nonlinear_arith)
        requires
            q + 1 <= k,
            n == hb * k,
            hb > 0,
    ;
}

proof fn lemma_seen_len(base: Seq<u8>, m: HunkModel, hb: nat, h: u32)
    requires
        model_wf(base, m, hb),
        h * hb + hb <= base.len(),
    ensures
        seen_hunk(base, m, hb, h).len() == hb,
{
    assert(0 <= h * hb) by (nonlinear_arith)
        requires
            h >= 0,
            hb > 0,
    ;
}

proof fn lemma_one_piece(base: Seq<u8>, m: HunkModel, hb: nat, p: HunkPiece, offset: int, data: Seq<u8>)
    requires
        model_wf(base, m, hb),
        0 <= offset,
        p.len > 0,
        p.done + p.len <= data.len(),
        offset + data.len() <= base.len(),
        p.hunk == (offset + p.done) / hb as int,
        p.within == (offset + p.done) % hb as int,
        p.within + p.len <= hb,
    ensures
        model_wf(base, piece_written(base, m, hb, p, data), hb),
        seen(base, piece_written(base, m, hb, p, data), hb) == crate::cow_disk::written(
            seen(base, m, hb),
            offset + p.done,
            data.subrange(p.done as int, p.done + p.len),
        ),
{
    let pos = offset + p.done;
    let chunk = data.subrange(p.done as int, p.done + p.len);
    let n = base.len() as int;
    lemma_hunk_of(pos, hb as int, n);
    lemma_seen_len(base, m, hb, p.hunk);
    let now = seen_hunk(base, m, hb, p.hunk);
    let content = crate::cow_disk::written(now, p.within as int, chunk);
    assert(content.len() == hb);
    let m2 = piece_written(base, m, hb, p, data);
    let left = seen(base, m2, hb);
    let right = crate::cow_disk::written(seen(base, m, hb), pos, chunk);
    assert forall|i: int| 0 <= i < n implies left[i] == right[i] by {
        lemma_hunk_of(i, hb as int, n);
        let g = i / hb as int;
        let r = i % hb as int;
        law_hunk_reads_back(base, m, hb, p.hunk, content, g as u32);
        if g == p.hunk {
            assert(i - pos == r - p.within);
        } else {
            if pos <= i < pos + p.len {
                // The piece lies inside of its hunk, so that `i` would too.
                let d = i - pos;
                assert(hb as int * p.hunk as int + (p.within + d) == i);
                vstd::arithmetic::div_mod::lemma_fundamental_div_mod_converse(
                    i,
                    hb as int,
                    p.hunk as int,
                    p.within + d,
                );
                assert(false);
            }
        }
    }
    assert(left =~= right);
}

/// A write through the overlay changes what the guest sees by exactly that write,
/// however it falls on hunks: bytes around it stay, also in hunks that the overlay
/// did not own before.
pub proof fn law_writes_land(
    base: Seq<u8>,
    m: HunkModel,
    hb: nat,
    pieces: Seq<HunkPiece>,
    offset: int,
    upto: int,
    data: Seq<u8>,
)
    requires
        model_wf(base, m, hb),
        0 <= offset,
        offset + data.len() <= base.len(),
        splits(pieces, offset, upto, data.len() as int, hb as int),
        upto <= data.len(),
    ensures
        0 <= upto,
        model_wf(base, pieces_written(base, m, hb, pieces, data), hb),
        seen(base, pieces_written(base, m, hb, pieces, data), hb) == crate::cow_disk::written(
            seen(base, m, hb),
            offset,
            data.take(upto),
        ),
    decreases pieces.len(),
{
    let before = seen(base, m, hb);
    if pieces.len() == 0 {
        assert(crate::cow_disk::written(before, offset, data.take(0)) =~= before);
    } else {
        let p = pieces.last();
        let front = pieces.drop_last();
        law_writes_land(base, m, hb, front, offset, p.done as int, data);
        let m1 = pieces_written(base, m, hb, front, data);
        lemma_one_piece(base, m1, hb, p, offset, data);
        let chunk = data.subrange(p.done as int, p.done + p.len);
        let s1 = crate::cow_disk::written(before, offset, data.take(p.done as int));
        let s2 = crate::cow_disk::written(s1, offset + p.done, chunk);
        let want = crate::cow_disk::written(before, offset, data.take(upto));
        assert(s2 =~= want);
    }
}

/// A read through the overlay gives what the guest sees there.
pub proof fn law_reads_see_the_disk(
    base: Seq<u8>,
    m: HunkModel,
    hb: nat,
    pieces: Seq<HunkPiece>,
    offset: int,
    upto: int,
    total: int,
)
    requires
        model_wf(base, m, hb),
        0 <= offset,
        offset + total <= base.len(),
        splits(pieces, offset, upto, total, hb as int),
        upto <= total,
    ensures
        0 <= upto,
        pieces_read(base, m, hb, pieces) == seen(base, m, hb).subrange(offset, offset + upto),
    decreases pieces.len(),
{
    let s = seen(base, m, hb);
    if pieces.len() == 0 {
        assert(s.subrange(offset, offset) =~= seq![]);
    } else {
        let p = pieces.last();
        let n = base.len() as int;
        law_reads_see_the_disk(base, m, hb, pieces.drop_last(), offset, p.done as int, total);
        let pos = offset + p.done;
        lemma_hunk_of(pos, hb as int, n);
        lemma_seen_len(base, m, hb, p.hunk);
        let part = seen_hunk(base, m, hb, p.hunk).subrange(p.within as int, p.within + p.len);
        assert forall|d: int| 0 <= d < p.len implies part[d] == s[pos + d] by {
            let i = pos + d;
            assert(hb as int * p.hunk as int + (p.within + d) == i);
            vstd::arithmetic::div_mod::lemma_fundamental_div_mod_converse(
                i,
                hb as int,
                p.hunk as int,
                p.within + d,
            );
        }
        assert(part =~= s.subrange(pos, pos + p.len));
        assert(s.subrange(offset, pos) + s.subrange(pos, pos + p.len) =~= s.subrange(
            offset,
            pos + p.len,
        ));
    }
}

// ---------------------------------------------------------------------------
// Folding an overlay into its base
// ---------------------------------------------------------------------------

/// The base with the hunks of the list taken from the overlay file.
pub open spec fn folded(base: Seq<u8>, m: HunkModel, hb: nat, hunks: Set<u32>) -> Seq<u8> {
    Seq::new(
        base.len(),
        |i: int|
            if hunks.contains((i / hb as int) as u32) {
                file_hunk(m, hb, (i / hb as int) as u32)[i % hb as int]
            } else {
                base[i]
            },
    )
}

/// A commit can be cut short after any of the hunks that it writes into the base,
/// and replayed from the start: with the overlay still there, the guest sees the
/// same disk. Once every owned hunk is in the base, the overlay can go.
pub proof fn law_commit_can_be_replayed(base: Seq<u8>, m: HunkModel, hb: nat, hunks: Set<u32>)
    requires
        model_wf(base, m, hb),
        forall|h: u32| #[trigger] hunks.contains(h) ==> owned_in(m, h),
    ensures
        model_wf(folded(base, m, hb, hunks), m, hb),
        seen(folded(base, m, hb, hunks), m, hb) == seen(base, m, hb),
        folded(folded(base, m, hb, hunks), m, hb, hunks) == folded(base, m, hb, hunks),
        (forall|h: u32| #[trigger] owned_in(m, h) ==> hunks.contains(h)) ==> {
            let empty = HunkModel { stored: Map::empty(), zero: Set::empty() };
            &&& folded(base, m, hb, hunks) == seen(base, m, hb)
            &&& seen(folded(base, m, hb, hunks), empty, hb) == seen(base, m, hb)
        },
{
    let b2 = folded(base, m, hb, hunks);
    let n = base.len() as int;
    let s = seen(base, m, hb);
    assert forall|i: int| 0 <= i < n implies #[trigger] seen(b2, m, hb)[i] == s[i] by {
        lemma_hunk_of(i, hb as int, n);
        let h = (i / hb as int) as u32;
        let r = i % hb as int;
        if !owned_in(m, h) {
            lemma_base_hunk(base, hb, i);
            lemma_base_hunk(b2, hb, i);
        }
    }
    assert(seen(b2, m, hb) =~= s);
    assert(folded(b2, m, hb, hunks) =~= b2);
    if forall|h: u32| #[trigger] owned_in(m, h) ==> hunks.contains(h) {
        let empty = HunkModel { stored: Map::empty(), zero: Set::empty() };
        assert forall|i: int| 0 <= i < n implies b2[i] == s[i] by {
            lemma_hunk_of(i, hb as int, n);
            let h = (i / hb as int) as u32;
            lemma_base_hunk(base, hb, i);
            if owned_in(m, h) {
                assert(hunks.contains(h));
            }
        }
        assert(b2 =~= s);
        assert forall|i: int| 0 <= i < n implies #[trigger] seen(b2, empty, hb)[i] == b2[i] by {
            lemma_base_hunk(b2, hb, i);
        }
        assert(seen(b2, empty, hb) =~= b2);
    }
}

/// A byte of the base, found through its hunk.
proof fn lemma_base_hunk(base: Seq<u8>, hb: nat, i: int)
    requires
        hb > 0,
        base.len() % hb == 0,
        base.len() as int / hb as int <= u32::MAX,
        0 <= i < base.len(),
    ensures
        ({
            let h = (i / hb as int) as u32;
            base.subrange(h * hb, h * hb + hb)[i % hb as int] == base[i]
        }),
{
    lemma_hunk_of(i, hb as int, base.len() as int);
    let h = (i / hb as int) as u32;
    assert(h as int == i / hb as int);
    assert(h * hb + i % hb as int == i) by (nonlinear_arith)
        requires
            i == hb as int * (i / hb as int) + i % hb as int,
            h as int == i / hb as int,
    ;
    assert(0 <= h * hb) by (nonlinear_arith)
        requires
            h >= 0,
            hb > 0,
    ;
    assert(h * hb + hb <= base.len()) by (nonlinear_arith)
        requires
            (i / hb as int) * hb as int + hb as int <= base.len(),
            h as int == i / hb as int,
    ;
}

// ---------------------------------------------------------------------------
// The overlay
// ---------------------------------------------------------------------------

/// Whether every byte is zero.
pub fn is_all_zero(s: &Vec<u8>) -> (r: bool)
    ensures
        r == all_zeros(s@),
{
    let mut i: usize = 0;
    while i < s.len()
        invariant
            i <= s.len(),
            forall|k: int| 0 <= k < i ==> #[trigger] s@[k] == 0,
        decreases s.len() - i,
    {
        if s[i] != 0 {
            return false;
        }
        i = i + 1;
    }
    true
}

/// What is wrong with a transfer, if anything: it overflows, or runs past the end.
pub open spec fn transfer_error(
    verb: Seq<char>,
    offset: u64,
    len: usize,
    logical: u64,
) -> Option<(DiskErrorKind, Seq<char>)> {
    if offset + len > u64::MAX {
        Some((DiskErrorKind::InvalidData, verb + " offset overflows"@))
    } else if offset + len > logical {
        Some(
            (
                DiskErrorKind::InvalidInput,
                verb + " of "@ + crate::text::decimal(len as nat) + " bytes at "@
                    + crate::text::decimal(offset as nat) + " runs past the end of the disk"@,
            ),
        )
    } else {
        None
    }
}

/// Whether a transfer lies on a disk of this size.
pub fn check_transfer(verb: &str, offset: u64, len: usize, logical: u64) -> (r: Result<
    (),
    DiskError,
>)
    ensures
        match r {
            Ok(_) => transfer_error(verb@, offset, len, logical) is None,
            Err(e) => transfer_error(verb@, offset, len, logical) == Some(e@),
        },
{
    let end: u64 = match offset.checked_add(len as u64) {
        Some(end) => end,
        None => {
            let mut m = owned(verb);
            m.append(" offset overflows");
            return Err(invalid_data(m));
        },
    };
    if end > logical {
        let mut m = owned(verb);
        m.append(" of ");
        push_decimal(&mut m, len as u64);
        m.append(" bytes at ");
        push_decimal(&mut m, offset);
        m.append(" runs past the end of the disk");
        return Err(invalid_input(m));
    }
    Ok(())
}

/// A sparse overlay of a base.
#[derive(Debug)]
pub struct SparseOverlay {
    ov: OverlayFile,
    unit_bytes: u32,
    logical_bytes: u64,
    hunk_bytes: u32,
}

impl SparseOverlay {
    /// The overlay side.
    pub closed spec fn file(self) -> OverlayFile {
        self.ov
    }

    /// Bytes of the disk.
    pub closed spec fn bytes(self) -> u64 {
        self.logical_bytes
    }

    /// Bytes in a sector.
    pub closed spec fn unit(self) -> u32 {
        self.unit_bytes
    }

    /// Bytes in a hunk.
    pub closed spec fn hunk_size(self) -> u32 {
        self.hunk_bytes
    }

    /// The hunks cover the disk, and the bitmap has a bit for each.
    pub closed spec fn wf(self) -> bool {
        &&& self.hunk_bytes > 0
        &&& self.ov.wf()
        &&& self.ov.hunk_size() == self.hunk_bytes
        &&& self.logical_bytes <= self.hunk_bytes * self.ov.hunks()
    }

    /// The overlay that was opened or made for a base of this geometry.
    pub fn new(ov: OverlayFile, g: ChdGeometry) -> (r: Self)
        requires
            g.wf(),
            ov.wf(),
            ov.hunk_size() == g.hunk_bytes,
            ov.hunks() == g.hunk_count,
        ensures
            r.wf(),
            r.file() == ov,
            r.bytes() == g.logical_bytes,
            r.unit() == g.unit_bytes,
            r.hunk_size() == g.hunk_bytes,
    {
        SparseOverlay {
            ov,
            unit_bytes: g.unit_bytes,
            logical_bytes: g.logical_bytes,
            hunk_bytes: g.hunk_bytes,
        }
    }

    pub fn logical_bytes(&self) -> (r: u64)
        ensures
            r == self.bytes(),
    {
        self.logical_bytes
    }

    pub fn unit_bytes(&self) -> (r: u32)
        ensures
            r == self.unit(),
    {
        self.unit_bytes
    }

    /// Number of hunks that the overlay owns, given its hunk map.
    pub fn owned_hunk_count(&self, map: &Vec<u32>) -> (r: Result<usize, DiskError>)
        requires
            map.len() <= u32::MAX,
        ensures
            match r {
                Ok(n) => {
                    &&& crate::chd_overlay::first_map_error(
                        self.file().record().zero_hunks,
                        map@,
                        self.file().hunk_size(),
                        0,
                    ) is None
                    &&& n == crate::chd_overlay::owned_below(
                        self.file().record().zero_hunks,
                        map@,
                        map@.len() as int,
                    ).len()
                },
                Err(e) => crate::chd_overlay::first_map_error(
                    self.file().record().zero_hunks,
                    map@,
                    self.file().hunk_size(),
                    0,
                ) matches Some(why) && e@ == (DiskErrorKind::InvalidData, why),
            },
    {
        match self.ov.owned_hunks(map) {
            Ok(hunks) => Ok(hunks.len()),
            Err(e) => Err(e),
        }
    }

    fn split(&self, offset: u64, len: usize) -> (r: Vec<HunkPiece>)
        requires
            self.wf(),
            offset + len <= self.bytes(),
        ensures
            splits(r@, offset as int, len as int, len as int, self.hunk_size() as int),
    {
        let hb: u64 = self.hunk_bytes as u64;
        let mut pieces: Vec<HunkPiece> = Vec::new();
        let mut done: usize = 0;
        while done < len
            invariant
                self.wf(),
                hb == self.hunk_bytes,
                offset + len <= self.logical_bytes,
                done <= len,
                splits(pieces@, offset as int, done as int, len as int, hb as int),
            decreases len - done,
        {
            let pos: u64 = offset + done as u64;
            proof {
                vstd::arithmetic::div_mod::lemma_fundamental_div_mod(pos as int, hb as int);
                let q = pos as int / hb as int;
                assert(q < self.ov.hunks()) by (nonlinear_arith)
                    requires
                        hb * q <= pos,
                        pos < self.logical_bytes,
                        self.logical_bytes <= hb * self.ov.hunks(),
                        hb > 0,
                ;
                assert(q >= 0) by (nonlinear_arith)
                    requires
                        q == pos as int / hb as int,
                        pos >= 0,
                        hb > 0,
                ;
            }
            let hunk: u32 = (pos / hb) as u32;
            let within: u64 = pos % hb;
            let room: u64 = hb - within;
            let left: usize = len - done;
            let n: usize = if room < left as u64 {
                room as usize
            } else {
                left
            };
            let ghost front = pieces@;
            pieces.push(HunkPiece { hunk, within: within as usize, len: n, done });
            proof {
                assert(pieces@.drop_last() =~= front);
            }
            done = done + n;
        }
        pieces
    }

    /// The pieces of a read of `len` bytes at `offset`.
    pub fn read_at(&self, offset: u64, len: usize) -> (r: Result<Vec<HunkPiece>, DiskError>)
        requires
            self.wf(),
        ensures
            match r {
                Ok(pieces) => {
                    &&& transfer_error("read"@, offset, len, self.bytes()) is None
                    &&& splits(
                        pieces@,
                        offset as int,
                        len as int,
                        len as int,
                        self.hunk_size() as int,
                    )
                },
                Err(e) => transfer_error("read"@, offset, len, self.bytes()) == Some(e@),
            },
    {
        match check_transfer("read", offset, len, self.logical_bytes) {
            Ok(_) => Ok(self.split(offset, len)),
            Err(e) => Err(e),
        }
    }

    /// The pieces of a write of `len` bytes at `offset`. The whole range is checked
    /// before anything is written.
    pub fn write_at(&self, offset: u64, len: usize) -> (r: Result<Vec<HunkPiece>, DiskError>)
        requires
            self.wf(),
        ensures
            match r {
                Ok(pieces) => {
                    &&& transfer_error("write"@, offset, len, self.bytes()) is None
                    &&& splits(
                        pieces@,
                        offset as int,
                        len as int,
                        len as int,
                        self.hunk_size() as int,
                    )
                    &&& forall|i: int|
                        0 <= i < pieces.len() ==> (#[trigger] pieces[i]).hunk < self.file().hunks()
                },
                Err(e) => transfer_error("write"@, offset, len, self.bytes()) == Some(e@),
            },
    {
        match check_transfer("write", offset, len, self.logical_bytes) {
            Ok(_) => {
                let pieces = self.split(offset, len);
                proof {
                    assert forall|i: int| 0 <= i < pieces.len() implies (
                    #[trigger] pieces[i]).hunk < self.file().hunks() by {
                        lemma_pieces_on_disk(
                            pieces@,
                            offset as int,
                            len as int,
                            len as int,
                            self.hunk_bytes as int,
                            self.logical_bytes as int,
                            self.ov.hunks() as int,
                            i,
                        );
                    }
                }
                Ok(pieces)
            },
            Err(e) => Err(e),
        }
    }

    /// Whether a hunk is read from the overlay, given what the hunk map says of it.
    pub fn reads_overlay(&self, hunk: u32, compbytes: u32) -> (r: Result<bool, DiskError>)
        ensures
            match r {
                Ok(b) => {
                    &&& crate::chd_overlay::map_error(
                        self.file().record().zero_hunks,
                        hunk,
                        compbytes,
                        self.file().hunk_size(),
                    ) is None
                    &&& b == crate::chd_overlay::is_owned(
                        self.file().record().zero_hunks,
                        hunk,
                        compbytes,
                    )
                },
                Err(e) => crate::chd_overlay::map_error(
                    self.file().record().zero_hunks,
                    hunk,
                    compbytes,
                    self.file().hunk_size(),
                ) matches Some(why) && e@ == (DiskErrorKind::InvalidData, why),
            },
    {
        self.ov.owns(hunk, compbytes)
    }

    /// Patches one piece of a write into the content of its hunk, and marks the hunk
    /// if it holds only zeros then. The result is the record that has to be written
    /// before the hunk is, if it changed.
    pub fn patch(&mut self, piece: HunkPiece, data: &[u8], hunk: &mut Vec<u8>) -> (r: Option<
        Vec<u8>,
    >)
        requires
            old(self).wf(),
            piece.hunk < old(self).file().hunks(),
            piece.done + piece.len <= data.len(),
            old(hunk).len() == old(self).hunk_size(),
            piece.within + piece.len <= old(hunk).len(),
        ensures
            final(self).wf(),
            final(hunk)@ == crate::cow_disk::written(
                old(hunk)@,
                piece.within as int,
                data@.subrange(piece.done as int, piece.done + piece.len),
            ),
            forall|h: u32|
                #[trigger] crate::chd_overlay::marked(final(self).file().record().zero_hunks, h)
                    == (crate::chd_overlay::marked(old(self).file().record().zero_hunks, h) || (h
                    == piece.hunk && all_zeros(final(hunk)@))),
            forall|m: HunkModel, h: u32|
                marks_as(old(self).file().record().zero_hunks, m) ==> (
                #[trigger] hunk_written(m, piece.hunk, final(hunk)@).zero.contains(h)
                    <==> crate::chd_overlay::marked(final(self).file().record().zero_hunks, h)),
            final(self).file().record() == (crate::chd_overlay::HeaderView {
                zero_hunks: final(self).file().record().zero_hunks,
                ..old(self).file().record()
            }),
            ({
                let fresh = all_zeros(final(hunk)@) && !crate::chd_overlay::marked(
                    old(self).file().record().zero_hunks,
                    piece.hunk,
                );
                &&& final(self).file().unsaved() == (old(self).file().unsaved() || fresh)
                &&& !fresh ==> final(self).file().record() == old(self).file().record()
            }),
            match r {
                Some(raw) => {
                    &&& all_zeros(final(hunk)@)
                    &&& final(self).file().unsaved()
                    &&& raw@ == crate::chd_overlay::record_bytes(final(self).file().record())
                },
                None => !all_zeros(final(hunk)@) || !final(self).file().unsaved(),
            },
            final(self).bytes() == old(self).bytes(),
            final(self).unit() == old(self).unit(),
            final(self).hunk_size() == old(self).hunk_size(),
            final(self).file().hunks() == old(self).file().hunks(),
            final(self).file().hunk_size() == old(self).file().hunk_size(),
    {
        let ghost before = hunk@;
        let ghost chunk = data@.subrange(piece.done as int, piece.done + piece.len);
        let mut i: usize = 0;
        while i < piece.len
            invariant
                i <= piece.len,
                piece.done + piece.len <= data.len(),
                piece.within + piece.len <= before.len(),
                hunk.len() == before.len(),
                chunk == data@.subrange(piece.done as int, piece.done + piece.len),
                forall|k: int|
                    0 <= k < before.len() ==> #[trigger] hunk@[k] == if piece.within <= k
                        < piece.within + i {
                        chunk[k - piece.within]
                    } else {
                        before[k]
                    },
                *self == *old(self),
            decreases piece.len - i,
        {
            hunk.set(piece.within + i, data[piece.done + i]);
            i = i + 1;
        }
        proof {
            assert(hunk@ =~= crate::cow_disk::written(before, piece.within as int, chunk));
        }
        if is_all_zero(hunk) {
            self.ov.set_zero_bit(piece.hunk);
            self.ov.persist_header()
        } else {
            None
        }
    }

    /// The record was written.
    pub fn record_saved(&mut self)
        requires
            old(self).wf(),
        ensures
            final(self).wf(),
            !final(self).file().unsaved(),
            final(self).file().record() == old(self).file().record(),
            final(self).file().hunks() == old(self).file().hunks(),
            final(self).file().hunk_size() == old(self).file().hunk_size(),
            final(self).bytes() == old(self).bytes(),
            final(self).unit() == old(self).unit(),
            final(self).hunk_size() == old(self).hunk_size(),
    {
        self.ov.header_saved();
    }

    /// The record to write before the file is closed, if it changed.
    pub fn persist_pending(&self) -> (r: Option<Vec<u8>>)
        requires
            self.wf(),
        ensures
            match r {
                Some(raw) => self.file().unsaved() && raw@ == crate::chd_overlay::record_bytes(
                    self.file().record(),
                ),
                None => !self.file().unsaved(),
            },
    {
        self.ov.persist_header()
    }
}

proof fn lemma_pieces_on_disk(
    pieces: Seq<HunkPiece>,
    offset: int,
    upto: int,
    total: int,
    hb: int,
    logical: int,
    hunks: int,
    i: int,
)
    requires
        splits(pieces, offset, upto, total, hb),
        0 <= offset,
        offset + total <= logical,
        upto <= total,
        hb > 0,
        logical <= hb * hunks,
        0 <= i < pieces.len(),
    ensures
        pieces[i].hunk < hunks,
    decreases pieces.len(),
{
    let p = pieces.last();
    if i < pieces.len() - 1 {
        lemma_pieces_on_disk(
            pieces.drop_last(),
            offset,
            p.done as int,
            total,
            hb,
            logical,
            hunks,
            i,
        );
        assert(pieces.drop_last()[i] == pieces[i]);
    } else {
        let pos = offset + p.done;
        vstd::arithmetic::div_mod::lemma_fundamental_div_mod(pos, hb);
        let q = pos / hb;
        assert(q < hunks) by (nonlinear_arith)
            requires
                hb * q <= pos,
                pos < logical,
                logical <= hb * hunks,
                hb > 0,
        ;
    }
}

/// A transfer is accepted exactly if it ends on the disk. One whose end cannot even be
/// counted is bad data, any other that runs past the end is a bad request.
pub proof fn law_which_transfers_are_on_the_disk(
    verb: Seq<char>,
    offset: u64,
    len: usize,
    logical: u64,
)
    ensures
        transfer_error(verb, offset, len, logical) is None <==> offset + len <= logical,
        transfer_error(verb, offset, len, logical) matches Some(e) ==> (e.0
            == DiskErrorKind::InvalidData <==> offset + len > u64::MAX) && (e.0
            == DiskErrorKind::InvalidInput <==> offset + len <= u64::MAX),
{
}

/// The pieces of a transfer, one by one: they follow each other without a gap from its first
/// byte to its last, none is empty, each lies in one hunk at the place that its bytes have on the
/// disk, and all but the first start where a hunk does.
pub proof fn law_pieces_of_a_transfer(
    pieces: Seq<HunkPiece>,
    offset: int,
    upto: int,
    total: int,
    hb: int,
)
    requires
        splits(pieces, offset, upto, total, hb),
        0 <= offset,
        0 < hb,
        upto <= total,
    ensures
        0 <= upto,
        pieces.len() == 0 <==> upto == 0,
        pieces.len() > 0 ==> pieces[0].done == 0 && pieces.last().done + pieces.last().len == upto,
        forall|i: int|
            0 <= i < pieces.len() ==> {
                let p = #[trigger] pieces[i];
                &&& p.len > 0
                &&& p.hunk * hb + p.within == offset + p.done
                &&& p.within + p.len <= hb
            },
        forall|i: int|
            0 < i < pieces.len() ==> (#[trigger] pieces[i]).done == pieces[i - 1].done + pieces[i
                - 1].len && pieces[i].within == 0 && pieces[i].hunk == pieces[i - 1].hunk + 1,
    decreases pieces.len(),
{
    if pieces.len() > 0 {
        let front = pieces.drop_last();
        let p = pieces.last();
        law_pieces_of_a_transfer(front, offset, p.done as int, total, hb);
        let pos = offset + p.done;
        vstd::arithmetic::div_mod::lemma_fundamental_div_mod(pos, hb);
        assert(p.hunk * hb + p.within == pos) by (nonlinear_arith)
            requires
                pos == hb * (pos / hb) + pos % hb,
                p.hunk == pos / hb,
                p.within == pos % hb,
        ;
        assert forall|i: int| 0 <= i < pieces.len() implies ({
            let q = #[trigger] pieces[i];
            &&& q.len > 0
            &&& q.hunk * hb + q.within == offset + q.done
            &&& q.within + q.len <= hb
        }) by {
            if i < front.len() {
                assert(front[i] == pieces[i]);
            }
        }
        if front.len() > 0 {
            let q = front.last();
            assert(front[front.len() - 1] == q);
            assert(front[0] == pieces[0]);
            // The piece before this one filled its hunk, since the transfer went on.
            assert(p.done < total);
            assert(splits(front, offset, p.done as int, total, hb));
            assert(q.within + q.len == hb);
            let h = q.hunk as int;
            assert(pos == (h + 1) * hb) by (nonlinear_arith)
                requires
                    h * hb + q.within == offset + q.done,
                    q.within + q.len == hb,
                    pos == offset + q.done + q.len,
            ;
            vstd::arithmetic::div_mod::lemma_fundamental_div_mod_converse(pos, hb, h + 1, 0);
        }
        assert forall|i: int| 0 < i < pieces.len() implies (#[trigger] pieces[i]).done == pieces[i
            - 1].done + pieces[i - 1].len && pieces[i].within == 0 && pieces[i].hunk == pieces[i
            - 1].hunk + 1 by {
            assert(front[i - 1] == pieces[i - 1]);
            if i < front.len() {
                assert(front[i] == pieces[i]);
            } else {
                assert(front.last() == pieces[i - 1]);
            }
        }
    }
}

/// A hunk holds only zeros exactly if no byte of it is anything else.
pub proof fn law_only_zeros(s: Seq<u8>, i: int)
    ensures
        0 <= i < s.len() && s[i] != 0 ==> !all_zeros(s),
        (forall|k: int| 0 <= k < s.len() ==> #[trigger] s[k] == 0) ==> all_zeros(s),
        all_zeros(zeros(s.len())),
        zeros(s.len()).len() == s.len(),
{
}

/// What is said of a transfer that runs past the end names its length and its place.
pub proof fn law_refused_transfers_are_named(
    verb: Seq<char>,
    offset: u64,
    len: usize,
    logical: u64,
)
    requires
        logical < offset + len <= u64::MAX,
    ensures
        transfer_error(verb, offset, len, logical) matches Some(e) && crate::text::begins_with(
            e.1,
            verb + " of "@ + crate::text::decimal(len as nat) + " bytes at "@
                + crate::text::decimal(offset as nat),
        ),
{
    let front = verb + " of "@ + crate::text::decimal(len as nat) + " bytes at "@
        + crate::text::decimal(offset as nat);
    crate::text::law_substrings(front, front, " runs past the end of the disk"@);
}

} // verus!
