//! The sparse copy-on-write overlay of an uncompressed CHD.
//!
//! The overlay is a CHD of the base's geometry that holds only the hunks that the
//! guest wrote; everything else is read from the base, and a hunk is copied up on
//! its first write. Which hunks the overlay owns is recorded twice. The hunk map of
//! the overlay has every hunk that was stored; but a hunk that holds only zeros is
//! dropped from the map, so a bitmap in the overlay's own metadata record has those.
//! A hunk is owned if either has it: a hunk that the guest cleared must not read as
//! the base's old data.
use vstd::prelude::*;
use crate::bytes::bits_signed;
use crate::bytes::le_at;
use crate::bytes::push_le;
use crate::bytes::signed_bits;
use crate::disk_error::invalid_data;
use crate::disk_error::invalid_input;
use crate::disk_error::DiskError;
use crate::disk_error::DiskErrorKind;
use crate::text::owned;
use crate::text::push_decimal;

verus! {

/// Metadata tag of the overlay's record: `IRCW`, most significant letter first.
pub const OVERLAY_TAG: u32 = 0x4952_4357;

/// Layout of the record. Bumped only for an incompatible change.
pub const OVERLAY_FORMAT: u32 = 1;

/// Offset of the bitmap within the record.
pub const BITMAP_OFFSET: usize = 48;

// ---------------------------------------------------------------------------
// The record
// ---------------------------------------------------------------------------

/// The overlay's record: which base it belongs to, and the bitmap of the hunks that
/// hold only zeros.
#[derive(Debug)]
pub struct OverlayHeader {
    pub base_logical: u64,
    pub base_hunk_bytes: u32,
    pub base_unit_bytes: u32,
    /// Length and modification time of the base file. A base that changed under its
    /// overlay makes every hunk that was copied up meaningless.
    pub base_len: u64,
    pub base_mtime_secs: i64,
    pub base_mtime_nanos: u32,
    /// Bit `h` set: the overlay owns hunk `h`, which holds only zeros.
    pub zero_hunks: Vec<u8>,
}

/// The record as plain values.
pub struct HeaderView {
    pub base_logical: u64,
    pub base_hunk_bytes: u32,
    pub base_unit_bytes: u32,
    pub base_len: u64,
    pub base_mtime_secs: i64,
    pub base_mtime_nanos: u32,
    pub zero_hunks: Seq<u8>,
}

impl View for OverlayHeader {
    type V = HeaderView;

    open spec fn view(&self) -> HeaderView {
        HeaderView {
            base_logical: self.base_logical,
            base_hunk_bytes: self.base_hunk_bytes,
            base_unit_bytes: self.base_unit_bytes,
            base_len: self.base_len,
            base_mtime_secs: self.base_mtime_secs,
            base_mtime_nanos: self.base_mtime_nanos,
            zero_hunks: self.zero_hunks@,
        }
    }
}

/// The bytes of a record: tag, layout, the base's geometry and identity, the length
/// of the bitmap, then the bitmap. Numbers are little endian.
pub open spec fn record_bytes(h: HeaderView) -> Seq<u8> {
    crate::bytes::le_bytes(OVERLAY_TAG as nat, 4) + crate::bytes::le_bytes(
        OVERLAY_FORMAT as nat,
        4,
    ) + crate::bytes::le_bytes(h.base_logical as nat, 8) + crate::bytes::le_bytes(
        h.base_hunk_bytes as nat,
        4,
    ) + crate::bytes::le_bytes(h.base_unit_bytes as nat, 4) + crate::bytes::le_bytes(
        h.base_len as nat,
        8,
    ) + crate::bytes::le_bytes(crate::bytes::twos_complement(h.base_mtime_secs), 8)
        + crate::bytes::le_bytes(h.base_mtime_nanos as nat, 4) + crate::bytes::le_bytes(
        h.zero_hunks.len(),
        4,
    ) + h.zero_hunks
}

/// The number at `at` in a record.
pub open spec fn field_at(raw: Seq<u8>, at: int, n: int) -> nat {
    crate::bytes::le_value(raw.subrange(at, at + n))
}

/// What is wrong with a record, if anything: too short, another tag, a layout of
/// another version, or a length that is not the one of its bitmap.
pub open spec fn record_error(raw: Seq<u8>) -> Option<Seq<char>> {
    if raw.len() < 48 {
        Some("overlay IRCW record is too short"@)
    } else if field_at(raw, 0, 4) != OVERLAY_TAG {
        Some("overlay IRCW record has the wrong magic"@)
    } else if field_at(raw, 4, 4) != OVERLAY_FORMAT {
        Some(
            "overlay IRCW record format "@ + crate::text::decimal(field_at(raw, 4, 4))
                + " is not supported (this build writes 1)"@,
        )
    } else if raw.len() != 48 + field_at(raw, 44, 4) {
        Some("overlay IRCW record length disagrees with its bitmap size"@)
    } else {
        None
    }
}

/// `h` is what the record `raw` says.
pub open spec fn is_record_of(raw: Seq<u8>, h: HeaderView) -> bool {
    &&& h.base_logical == field_at(raw, 8, 8)
    &&& h.base_hunk_bytes == field_at(raw, 16, 4)
    &&& h.base_unit_bytes == field_at(raw, 20, 4)
    &&& h.base_len == field_at(raw, 24, 8)
    &&& crate::bytes::twos_complement(h.base_mtime_secs) == field_at(raw, 32, 8)
    &&& h.base_mtime_nanos == field_at(raw, 40, 4)
    &&& h.zero_hunks == raw.skip(48)
}

fn small_at(raw: &[u8], at: usize) -> (r: u32)
    requires
        at + 4 <= raw.len(),
    ensures
        r == field_at(raw@, at as int, 4),
{
    let v: u64 = le_at(raw, at, 4);
    proof {
        crate::bytes::lemma_le_bounds();
        crate::bytes::lemma_le_value_bound(raw@.subrange(at as int, at + 4));
    }
    v as u32
}

impl OverlayHeader {
    /// The bytes of the record. The length of the bitmap is stored in 32 bits.
    pub fn encode(&self) -> (r: Vec<u8>)
        requires
            self.zero_hunks.len() <= u32::MAX,
        ensures
            r@ == record_bytes(self@),
    {
        let mut v: Vec<u8> = Vec::new();
        push_le(&mut v, OVERLAY_TAG as u64, 4);
        push_le(&mut v, OVERLAY_FORMAT as u64, 4);
        push_le(&mut v, self.base_logical, 8);
        push_le(&mut v, self.base_hunk_bytes as u64, 4);
        push_le(&mut v, self.base_unit_bytes as u64, 4);
        push_le(&mut v, self.base_len, 8);
        push_le(&mut v, signed_bits(self.base_mtime_secs), 8);
        push_le(&mut v, self.base_mtime_nanos as u64, 4);
        push_le(&mut v, self.zero_hunks.len() as u64, 4);
        let ghost head = v@;
        let mut i: usize = 0;
        proof {
            assert(v@ =~= head + self.zero_hunks@.take(0));
        }
        while i < self.zero_hunks.len()
            invariant
                i <= self.zero_hunks.len(),
                v@ == head + self.zero_hunks@.take(i as int),
            decreases self.zero_hunks.len() - i,
        {
            v.push(self.zero_hunks[i]);
            i = i + 1;
            proof {
                assert(v@ =~= head + self.zero_hunks@.take(i as int));
            }
        }
        proof {
            assert(self.zero_hunks@.take(i as int) =~= self.zero_hunks@);
            assert(v@ =~= record_bytes(self@));
        }
        v
    }

    /// Reads a record, refusing one that is damaged or not of this layout.
    pub fn decode(raw: &[u8]) -> (r: Result<Self, DiskError>)
        ensures
            match r {
                Ok(h) => record_error(raw@) is None && is_record_of(raw@, h@),
                Err(e) => record_error(raw@) matches Some(why) && e@ == (
                    DiskErrorKind::InvalidData,
                    why,
                ),
            },
    {
        if raw.len() < BITMAP_OFFSET {
            return Err(invalid_data(owned("overlay IRCW record is too short")));
        }
        if small_at(raw, 0) != OVERLAY_TAG {
            return Err(invalid_data(owned("overlay IRCW record has the wrong magic")));
        }
        let format: u32 = small_at(raw, 4);
        if format != OVERLAY_FORMAT {
            let mut m = owned("overlay IRCW record format ");
            push_decimal(&mut m, format as u64);
            m.append(" is not supported (this build writes 1)");
            return Err(invalid_data(m));
        }
        let bitmap_len: u64 = small_at(raw, 44) as u64;
        if raw.len() as u64 != 48 + bitmap_len {
            return Err(
                invalid_data(owned("overlay IRCW record length disagrees with its bitmap size")),
            );
        }
        let mut zero_hunks: Vec<u8> = Vec::new();
        let mut i: usize = BITMAP_OFFSET;
        while i < raw.len()
            invariant
                48 <= i <= raw.len(),
                zero_hunks@ == raw@.subrange(48, i as int),
            decreases raw.len() - i,
        {
            zero_hunks.push(raw[i]);
            i = i + 1;
            proof {
                assert(zero_hunks@ =~= raw@.subrange(48, i as int));
            }
        }
        proof {
            assert(zero_hunks@ =~= raw@.skip(48));
        }
        Ok(
            OverlayHeader {
                base_logical: le_at(raw, 8, 8),
                base_hunk_bytes: small_at(raw, 16),
                base_unit_bytes: small_at(raw, 20),
                base_len: le_at(raw, 24, 8),
                base_mtime_secs: bits_signed(le_at(raw, 32, 8)),
                base_mtime_nanos: small_at(raw, 40),
                zero_hunks,
            },
        )
    }
}

/// A record comes back from its bytes.
pub proof fn law_record_round_trip(h: HeaderView)
    requires
        h.zero_hunks.len() <= u32::MAX,
    ensures
        record_error(record_bytes(h)) is None,
        is_record_of(record_bytes(h), h),
        record_bytes(h).len() == 48 + h.zero_hunks.len(),
{
    let raw = record_bytes(h);
    crate::bytes::lemma_le_bounds();
    lemma_piece(OVERLAY_TAG as nat, 4);
    lemma_piece(OVERLAY_FORMAT as nat, 4);
    lemma_piece(h.base_logical as nat, 8);
    lemma_piece(h.base_hunk_bytes as nat, 4);
    lemma_piece(h.base_unit_bytes as nat, 4);
    lemma_piece(h.base_len as nat, 8);
    lemma_piece(crate::bytes::twos_complement(h.base_mtime_secs), 8);
    lemma_piece(h.base_mtime_nanos as nat, 4);
    lemma_piece(h.zero_hunks.len(), 4);
    assert(raw.len() == 48 + h.zero_hunks.len());
    assert(raw.subrange(0, 4) =~= crate::bytes::le_bytes(OVERLAY_TAG as nat, 4));
    assert(raw.subrange(4, 8) =~= crate::bytes::le_bytes(OVERLAY_FORMAT as nat, 4));
    assert(raw.subrange(8, 16) =~= crate::bytes::le_bytes(h.base_logical as nat, 8));
    assert(raw.subrange(16, 20) =~= crate::bytes::le_bytes(h.base_hunk_bytes as nat, 4));
    assert(raw.subrange(20, 24) =~= crate::bytes::le_bytes(h.base_unit_bytes as nat, 4));
    assert(raw.subrange(24, 32) =~= crate::bytes::le_bytes(h.base_len as nat, 8));
    assert(raw.subrange(32, 40) =~= crate::bytes::le_bytes(
        crate::bytes::twos_complement(h.base_mtime_secs),
        8,
    ));
    assert(raw.subrange(40, 44) =~= crate::bytes::le_bytes(h.base_mtime_nanos as nat, 4));
    assert(raw.subrange(44, 48) =~= crate::bytes::le_bytes(h.zero_hunks.len(), 4));
    assert(raw.skip(48) =~= h.zero_hunks);
}

/// Where the numbers of a record stand, and which bytes a record begins with: each
/// number is the sum of its bytes, the first byte worth one and each next one 256 times
/// as much. A time before the epoch is 2^64 less than its bytes say.
pub proof fn law_record_layout(raw: Seq<u8>, h: HeaderView)
    requires
        raw.len() >= 48,
        is_record_of(raw, h),
    ensures
        h.base_logical == raw[8] + 0x100 * raw[9] + 0x1_0000 * raw[10] + 0x100_0000 * raw[11]
            + 0x1_0000_0000 * raw[12] + 0x100_0000_0000 * raw[13] + 0x1_0000_0000_0000 * raw[14]
            + 0x100_0000_0000_0000 * raw[15],
        h.base_hunk_bytes == raw[16] + 0x100 * raw[17] + 0x1_0000 * raw[18] + 0x100_0000 * raw[19],
        h.base_unit_bytes == raw[20] + 0x100 * raw[21] + 0x1_0000 * raw[22] + 0x100_0000 * raw[23],
        h.base_len == raw[24] + 0x100 * raw[25] + 0x1_0000 * raw[26] + 0x100_0000 * raw[27]
            + 0x1_0000_0000 * raw[28] + 0x100_0000_0000 * raw[29] + 0x1_0000_0000_0000 * raw[30]
            + 0x100_0000_0000_0000 * raw[31],
        h.base_mtime_secs + (if h.base_mtime_secs < 0 {
            0x1_0000_0000_0000_0000int
        } else {
            0
        }) == raw[32] + 0x100 * raw[33] + 0x1_0000 * raw[34] + 0x100_0000 * raw[35]
            + 0x1_0000_0000 * raw[36] + 0x100_0000_0000 * raw[37] + 0x1_0000_0000_0000 * raw[38]
            + 0x100_0000_0000_0000 * raw[39],
        h.base_mtime_nanos == raw[40] + 0x100 * raw[41] + 0x1_0000 * raw[42] + 0x100_0000
            * raw[43],
        h.zero_hunks.len() == raw.len() - 48,
        forall|i: int| 48 <= i < raw.len() ==> #[trigger] raw[i] == h.zero_hunks[i - 48],
        record_error(raw) is None <==> {
            &&& raw[0] == 0x57 && raw[1] == 0x43 && raw[2] == 0x52 && raw[3] == 0x49
            &&& raw[4] == 1 && raw[5] == 0 && raw[6] == 0 && raw[7] == 0
            &&& raw.len() == 48 + raw[44] + 0x100 * raw[45] + 0x1_0000 * raw[46] + 0x100_0000
                * raw[47]
        },
{
    crate::bytes::law_four_bytes(raw.subrange(0, 4));
    crate::bytes::law_four_bytes(raw.subrange(4, 8));
    crate::bytes::law_eight_bytes(raw.subrange(8, 16));
    crate::bytes::law_four_bytes(raw.subrange(16, 20));
    crate::bytes::law_four_bytes(raw.subrange(20, 24));
    crate::bytes::law_eight_bytes(raw.subrange(24, 32));
    crate::bytes::law_eight_bytes(raw.subrange(32, 40));
    crate::bytes::law_four_bytes(raw.subrange(40, 44));
    crate::bytes::law_four_bytes(raw.subrange(44, 48));
}

/// The bytes of a record are laid out as they are read: a record that is written reads
/// as itself and is accepted, and anything shorter than its fixed part is refused.
pub proof fn law_records_are_written_as_they_are_read(h: HeaderView, short: Seq<u8>)
    requires
        h.zero_hunks.len() <= u32::MAX,
        short.len() < 48,
    ensures
        ({
            let raw = record_bytes(h);
            &&& raw.len() == 48 + h.zero_hunks.len()
            &&& raw[0] == 0x57 && raw[1] == 0x43 && raw[2] == 0x52 && raw[3] == 0x49
            &&& raw[4] == 1 && raw[5] == 0 && raw[6] == 0 && raw[7] == 0
            &&& h.base_hunk_bytes == raw[16] + 0x100 * raw[17] + 0x1_0000 * raw[18] + 0x100_0000
                * raw[19]
            &&& h.base_unit_bytes == raw[20] + 0x100 * raw[21] + 0x1_0000 * raw[22] + 0x100_0000
                * raw[23]
            &&& raw.skip(48) == h.zero_hunks
        }),
        record_error(short) is Some,
{
    law_record_round_trip(h);
    law_record_layout(record_bytes(h), h);
}

proof fn lemma_piece(v: nat, n: nat)
    requires
        v < crate::bytes::le_bound(n),
    ensures
        crate::bytes::le_bytes(v, n).len() == n,
        crate::bytes::le_value(crate::bytes::le_bytes(v, n)) == v,
{
    crate::bytes::lemma_le_len(v, n);
    crate::bytes::lemma_le_round_trip(v, n);
}

// ---------------------------------------------------------------------------
// Presence
// ---------------------------------------------------------------------------

/// Bit `k` of a byte is set.
pub open spec fn bit_set(b: u8, k: u32) -> bool {
    b & (1u8 << k) != 0
}

/// The hunks whose bit is set in a bitmap.
pub open spec fn marked(bitmap: Seq<u8>, hunk: u32) -> bool {
    hunk / 8 < bitmap.len() && bit_set(bitmap[(hunk / 8) as int], hunk % 8)
}

/// The overlay owns a hunk: its bit is set, or the hunk map has it stored.
pub open spec fn is_owned(bitmap: Seq<u8>, hunk: u32, compbytes: u32) -> bool {
    marked(bitmap, hunk) || compbytes != 0
}

/// What the hunk map of an uncompressed CHD without a parent cannot say: a hunk is
/// stored whole or not at all.
pub open spec fn map_error(
    bitmap: Seq<u8>,
    hunk: u32,
    compbytes: u32,
    hunk_bytes: u32,
) -> Option<Seq<char>> {
    if marked(bitmap, hunk) || compbytes == 0 || compbytes == hunk_bytes {
        None
    } else {
        Some(
            "overlay hunk "@ + crate::text::decimal(hunk as nat) + " reports "@
                + crate::text::decimal(compbytes as nat) + " bytes in a "@ + crate::text::decimal(
                hunk_bytes as nat,
            ) + "-byte-hunk uncompressed CHD"@,
        )
    }
}

/// The first hunk from `from` on of which the map says what it cannot.
pub open spec fn first_map_error(
    bitmap: Seq<u8>,
    map: Seq<u32>,
    hunk_bytes: u32,
    from: int,
) -> Option<Seq<char>>
    decreases map.len() - from,
{
    if from < 0 || from >= map.len() {
        None
    } else {
        let e = map_error(bitmap, from as u32, map[from], hunk_bytes);
        if e is Some {
            e
        } else {
            first_map_error(bitmap, map, hunk_bytes, from + 1)
        }
    }
}

/// The hunks below `n` that the overlay owns, ascending.
pub open spec fn owned_below(bitmap: Seq<u8>, map: Seq<u32>, n: int) -> Seq<u32>
    decreases n,
{
    if n <= 0 {
        seq![]
    } else if is_owned(bitmap, (n - 1) as u32, map[n - 1]) {
        owned_below(bitmap, map, n - 1).push((n - 1) as u32)
    } else {
        owned_below(bitmap, map, n - 1)
    }
}

/// The bit of hunk `h` is bit `h % 8` of byte `h / 8` of the bitmap, bit 0 the least
/// significant one; a hunk beyond the bitmap has none.
pub proof fn law_where_a_bit_stands(bitmap: Seq<u8>, hunk: u32)
    ensures
        marked(bitmap, hunk) <==> hunk / 8 < bitmap.len() && (bitmap[(hunk / 8) as int] >> (hunk
            % 8)) % 2 == 1,
{
    if hunk / 8 < bitmap.len() {
        let b = bitmap[(hunk / 8) as int];
        let k = hunk % 8;
        assert((b & (1u8 << k) != 0) == ((b >> k) % 2 == 1)) by (bit_vector)
            requires
                k < 8,
        ;
    }
}

/// The owned hunks are exactly those that are marked or stored, each once and in
/// ascending order.
pub proof fn law_owned_hunks(bitmap: Seq<u8>, map: Seq<u32>, n: int)
    requires
        0 <= n <= map.len(),
        map.len() <= u32::MAX,
    ensures
        forall|h: u32|
            #[trigger] owned_below(bitmap, map, n).contains(h) <==> h < n && (marked(bitmap, h)
                || map[h as int] != 0),
        forall|i: int, j: int|
            0 <= i < j < owned_below(bitmap, map, n).len() ==> #[trigger] owned_below(
                bitmap,
                map,
                n,
            )[i] < #[trigger] owned_below(bitmap, map, n)[j],
    decreases n,
{
    if n > 0 {
        law_owned_hunks(bitmap, map, n - 1);
        let front = owned_below(bitmap, map, n - 1);
        let all = owned_below(bitmap, map, n);
        let last = (n - 1) as u32;
        assert forall|i: int| 0 <= i < front.len() implies #[trigger] front[i] < n - 1 by {
            assert(front.contains(front[i]));
        }
        assert forall|h: u32| #[trigger] all.contains(h) <==> h < n && (marked(bitmap, h)
            || map[h as int] != 0) by {
            if marked(bitmap, last) || map[n - 1] != 0 {
                assert(all == front.push(last));
                assert(all[front.len() as int] == last);
                if front.contains(h) {
                    let i = choose|i: int| 0 <= i < front.len() && front[i] == h;
                    assert(all[i] == h);
                }
                if all.contains(h) {
                    let i = choose|i: int| 0 <= i < all.len() && all[i] == h;
                    assert(i < front.len() ==> front[i] == h);
                }
            }
            assert(front.contains(h) <==> h < n - 1 && (marked(bitmap, h) || map[h as int] != 0));
        }
    }
}

/// A hunk map is accepted exactly if every hunk in it is marked, not stored, or stored
/// whole.
pub proof fn law_accepted_maps(bitmap: Seq<u8>, map: Seq<u32>, hunk_bytes: u32, from: int)
    requires
        0 <= from <= map.len(),
        map.len() <= u32::MAX,
    ensures
        first_map_error(bitmap, map, hunk_bytes, from) is None <==> forall|i: int|
            from <= i < map.len() ==> #[trigger] map[i] == 0 || map[i] == hunk_bytes || marked(
                bitmap,
                i as u32,
            ),
    decreases map.len() - from,
{
    if from < map.len() {
        law_accepted_maps(bitmap, map, hunk_bytes, from + 1);
        let one = map[from] == 0 || map[from] == hunk_bytes || marked(bitmap, from as u32);
        assert(map_error(bitmap, from as u32, map[from], hunk_bytes) is None <==> one);
        if first_map_error(bitmap, map, hunk_bytes, from) is None {
            assert forall|i: int| from <= i < map.len() implies #[trigger] map[i] == 0 || map[i]
                == hunk_bytes || marked(bitmap, i as u32) by {
                if i > from {
                    assert(first_map_error(bitmap, map, hunk_bytes, from + 1) is None);
                }
            }
        }
    }
}

/// The overlay side of a sparse overlay: its record, and the geometry of its file.
#[derive(Debug)]
pub struct OverlayFile {
    header: OverlayHeader,
    header_dirty: bool,
    hunk_bytes: u32,
    hunk_count: u32,
}

proof fn lemma_set_bit(b: u8, k: u32, j: u32)
    requires
        k < 8,
        j < 8,
    ensures
        bit_set(b | (1u8 << k), j) == (j == k || bit_set(b, j)),
{
    assert(((b | (1u8 << k)) & (1u8 << j) != 0) == (j == k || (b & (1u8 << j) != 0)))
        by (bit_vector)
        requires
            k < 8,
            j < 8,
    ;
}

impl OverlayFile {
    /// The record.
    pub closed spec fn record(self) -> HeaderView {
        self.header@
    }

    /// The record changed since it was saved.
    pub closed spec fn unsaved(self) -> bool {
        self.header_dirty
    }

    /// Bytes in a hunk.
    pub closed spec fn hunk_size(self) -> u32 {
        self.hunk_bytes
    }

    /// Hunks of the disk.
    pub closed spec fn hunks(self) -> u32 {
        self.hunk_count
    }

    /// The bitmap has a bit for every hunk.
    pub open spec fn wf(self) -> bool {
        self.record().zero_hunks.len() == (self.hunks() + 7) / 8
    }

    /// An overlay with this record and geometry; one whose bitmap is not the size
    /// that the disk needs is refused.
    pub fn open(path: &str, header: OverlayHeader, hunk_bytes: u32, hunk_count: u32) -> (r: Result<
        Self,
        DiskError,
    >)
        ensures
            match r {
                Ok(ov) => {
                    &&& ov.wf()
                    &&& ov.record() == header@
                    &&& !ov.unsaved()
                    &&& ov.hunk_size() == hunk_bytes
                    &&& ov.hunks() == hunk_count
                },
                Err(e) => {
                    &&& header@.zero_hunks.len() != (hunk_count + 7) / 8
                    &&& e@ == (
                        DiskErrorKind::InvalidData,
                        "overlay "@ + path@ + " has a "@ + crate::text::decimal(
                            header@.zero_hunks.len(),
                        ) + "-byte presence bitmap; this disk needs "@ + crate::text::decimal(
                            ((hunk_count + 7) / 8) as nat,
                        ),
                    )
                },
            },
    {
        let expect: u64 = (hunk_count as u64 + 7) / 8;
        if header.zero_hunks.len() as u64 != expect {
            let mut m = owned("overlay ");
            m.append(path);
            m.append(" has a ");
            push_decimal(&mut m, header.zero_hunks.len() as u64);
            m.append("-byte presence bitmap; this disk needs ");
            push_decimal(&mut m, expect);
            return Err(invalid_data(m));
        }
        Ok(OverlayFile { header, header_dirty: false, hunk_bytes, hunk_count })
    }

    /// The overlay whose file holds this record, or holds none.
    pub fn from_record(path: &str, raw: Option<&[u8]>, hunk_bytes: u32, hunk_count: u32) -> (r:
        Result<Self, DiskError>)
        ensures
            match r {
                Ok(ov) => {
                    &&& raw matches Some(b) && record_error(b@) is None && is_record_of(
                        b@,
                        ov.record(),
                    )
                    &&& ov.wf()
                    &&& !ov.unsaved()
                    &&& ov.hunk_size() == hunk_bytes
                    &&& ov.hunks() == hunk_count
                },
                Err(e) => e@.0 == DiskErrorKind::InvalidData && match raw {
                    None => e@.1 == path@
                        + " is not an IRIS sparse overlay (no IRCW record). Move it aside to start a fresh overlay, or keep it for offline inspection."@,
                    Some(b) => match record_error(b@) {
                        Some(why) => e@.1 == why,
                        None => {
                            &&& b@.len() - BITMAP_OFFSET != (hunk_count + 7) / 8
                            &&& e@.1 == "overlay "@ + path@ + " has a "@ + crate::text::decimal(
                                (b@.len() - BITMAP_OFFSET) as nat,
                            ) + "-byte presence bitmap; this disk needs "@ + crate::text::decimal(
                                ((hunk_count + 7) / 8) as nat,
                            )
                        },
                    },
                },
            },
    {
        match raw {
            None => {
                let mut m = owned(path);
                m.append(
                    " is not an IRIS sparse overlay (no IRCW record). Move it aside to start a fresh overlay, or keep it for offline inspection.",
                );
                Err(invalid_data(m))
            },
            Some(b) => match OverlayHeader::decode(b) {
                Ok(header) => OverlayFile::open(path, header, hunk_bytes, hunk_count),
                Err(e) => Err(e),
            },
        }
    }

    /// Whether the bit of a hunk is set.
    pub fn zero_bit(&self, hunk: u32) -> (r: bool)
        ensures
            r == marked(self.record().zero_hunks, hunk),
    {
        let byte: u32 = hunk / 8;
        if (byte as u64) < self.header.zero_hunks.len() as u64 {
            self.header.zero_hunks[byte as usize] & (1u8 << (hunk % 8)) != 0
        } else {
            false
        }
    }

    /// Sets the bit of a hunk. The record is unsaved if that changed it.
    pub fn set_zero_bit(&mut self, hunk: u32)
        requires
            old(self).wf(),
            hunk < old(self).hunks(),
        ensures
            final(self).wf(),
            forall|h: u32|
                #[trigger] marked(final(self).record().zero_hunks, h) == (h == hunk || marked(
                    old(self).record().zero_hunks,
                    h,
                )),
            final(self).record() == (HeaderView {
                zero_hunks: final(self).record().zero_hunks,
                ..old(self).record()
            }),
            final(self).unsaved() == (old(self).unsaved() || !marked(
                old(self).record().zero_hunks,
                hunk,
            )),
            marked(old(self).record().zero_hunks, hunk) ==> final(self).record()
                == old(self).record(),
            final(self).hunk_size() == old(self).hunk_size(),
            final(self).hunks() == old(self).hunks(),
    {
        if self.zero_bit(hunk) {
            return ;
        }
        let byte: usize = (hunk / 8) as usize;
        let ghost before = self.header.zero_hunks@;
        let b: u8 = self.header.zero_hunks[byte];
        self.header.zero_hunks.set(byte, b | (1u8 << (hunk % 8)));
        self.header_dirty = true;
        proof {
            let after = self.header.zero_hunks@;
            assert forall|h: u32| #[trigger] marked(after, h) == (h == hunk || marked(before, h)) by {
                lemma_set_bit(b, hunk % 8, h % 8);
                if h / 8 == hunk / 8 {
                    assert(h % 8 == hunk % 8 ==> h == hunk);
                }
            }
        }
    }

    /// Whether the overlay owns a hunk, given what the hunk map says of it.
    pub fn owns(&self, hunk: u32, compbytes: u32) -> (r: Result<bool, DiskError>)
        ensures
            match r {
                Ok(b) => {
                    &&& map_error(
                        self.record().zero_hunks,
                        hunk,
                        compbytes,
                        self.hunk_size(),
                    ) is None
                    &&& b == is_owned(self.record().zero_hunks, hunk, compbytes)
                },
                Err(e) => map_error(
                    self.record().zero_hunks,
                    hunk,
                    compbytes,
                    self.hunk_size(),
                ) matches Some(why) && e@ == (DiskErrorKind::InvalidData, why),
            },
    {
        if self.zero_bit(hunk) {
            return Ok(true);
        }
        if compbytes == 0 {
            Ok(false)
        } else if compbytes == self.hunk_bytes {
            Ok(true)
        } else {
            let mut m = owned("overlay hunk ");
            push_decimal(&mut m, hunk as u64);
            m.append(" reports ");
            push_decimal(&mut m, compbytes as u64);
            m.append(" bytes in a ");
            push_decimal(&mut m, self.hunk_bytes as u64);
            m.append("-byte-hunk uncompressed CHD");
            Err(invalid_data(m))
        }
    }

    /// The hunks that the overlay owns, ascending, given the hunk map.
    pub fn owned_hunks(&self, map: &Vec<u32>) -> (r: Result<Vec<u32>, DiskError>)
        requires
            map.len() <= u32::MAX,
        ensures
            match r {
                Ok(out) => {
                    &&& first_map_error(
                        self.record().zero_hunks,
                        map@,
                        self.hunk_size(),
                        0,
                    ) is None
                    &&& out@ == owned_below(
                        self.record().zero_hunks,
                        map@,
                        map@.len() as int,
                    )
                },
                Err(e) => first_map_error(
                    self.record().zero_hunks,
                    map@,
                    self.hunk_size(),
                    0,
                ) matches Some(why) && e@ == (DiskErrorKind::InvalidData, why),
            },
    {
        let mut out: Vec<u32> = Vec::new();
        let mut i: usize = 0;
        while i < map.len()
            invariant
                map.len() <= u32::MAX,
                i <= map.len(),
                first_map_error(self.record().zero_hunks, map@, self.hunk_size(), 0)
                    == first_map_error(
                    self.record().zero_hunks,
                    map@,
                    self.hunk_size(),
                    i as int,
                ),
                out@ == owned_below(self.record().zero_hunks, map@, i as int),
            decreases map.len() - i,
        {
            match self.owns(i as u32, map[i]) {
                Ok(b) => {
                    if b {
                        out.push(i as u32);
                    }
                },
                Err(e) => {
                    return Err(e);
                },
            }
            i = i + 1;
        }
        Ok(out)
    }

    /// The record to write, if it changed since it was saved. It has the length of
    /// the one before, so that it is overwritten in place.
    pub fn persist_header(&self) -> (r: Option<Vec<u8>>)
        requires
            self.wf(),
        ensures
            match r {
                Some(raw) => self.unsaved() && raw@ == record_bytes(self.record()),
                None => !self.unsaved(),
            },
    {
        if !self.header_dirty {
            return None;
        }
        Some(self.header.encode())
    }

    /// The record was written.
    pub fn header_saved(&mut self)
        ensures
            !final(self).unsaved(),
            final(self).record() == old(self).record(),
            final(self).hunk_size() == old(self).hunk_size(),
            final(self).hunks() == old(self).hunks(),
    {
        self.header_dirty = false;
    }
}

// ---------------------------------------------------------------------------
// Creating and attaching
// ---------------------------------------------------------------------------

/// Length and modification time of a base file.
#[derive(Clone, Copy, Debug, PartialEq, Eq, Structural)]
pub struct BaseIdentity {
    pub len: u64,
    pub mtime_secs: i64,
    pub mtime_nanos: u32,
}

/// The length and the modification time of a base file, in seconds from the epoch and
/// nanoseconds, by the distance of that time from the epoch.
pub open spec fn identity_of(len: u64, before_epoch: bool, secs: u64, nanos: u32) -> (
    u64,
    int,
    u32,
) {
    if before_epoch {
        (len, -secs, 0)
    } else {
        (len, secs as int, nanos)
    }
}

/// Files of different lengths, and files that were changed at different times since the epoch,
/// have different identities. Before the epoch only whole seconds count, and they count
/// downwards.
pub proof fn law_identities_tell_files_apart(
    len: u64,
    secs: u64,
    nanos: u32,
    len2: u64,
    secs2: u64,
    nanos2: u32,
)
    ensures
        identity_of(len, false, secs, nanos) == identity_of(len2, false, secs2, nanos2) <==> len
            == len2 && secs == secs2 && nanos == nanos2,
        identity_of(len, true, secs, nanos) == identity_of(len2, true, secs2, nanos2) <==> len
            == len2 && secs == secs2,
        identity_of(len, false, secs, nanos).1 == secs,
        identity_of(len, true, secs, nanos).1 == -secs,
{
}

/// The identity of a base file, from its length and the distance of its modification
/// time from the epoch. A time before the epoch is kept in whole seconds.
pub fn base_identity(len: u64, before_epoch: bool, secs: u64, nanos: u32) -> (r: BaseIdentity)
    requires
        secs <= i64::MAX,
    ensures
        r.len == len,
        r.mtime_secs == if before_epoch {
            -secs
        } else {
            secs as int
        },
        r.mtime_nanos == if before_epoch {
            0
        } else {
            nanos
        },
        (r.len, r.mtime_secs as int, r.mtime_nanos) == identity_of(len, before_epoch, secs, nanos),
{
    if before_epoch {
        BaseIdentity { len, mtime_secs: -(secs as i64), mtime_nanos: 0 }
    } else {
        BaseIdentity { len, mtime_secs: secs as i64, mtime_nanos: nanos }
    }
}

/// The geometry of a CHD, as its header gives it.
#[derive(Clone, Copy, Debug, PartialEq, Eq, Structural)]
pub struct ChdGeometry {
    pub logical_bytes: u64,
    pub hunk_bytes: u32,
    pub unit_bytes: u32,
    pub hunk_count: u32,
    pub compressed: bool,
}

impl ChdGeometry {
    /// The hunks cover the disk.
    pub open spec fn wf(self) -> bool {
        self.hunk_bytes > 0 && self.logical_bytes <= self.hunk_bytes * self.hunk_count
    }
}

/// What is wrong with making a sparse overlay for this base, if anything.
pub open spec fn create_error(g: ChdGeometry) -> Option<(DiskErrorKind, Seq<char>)> {
    if g.compressed {
        Some(
            (
                DiskErrorKind::InvalidInput,
                "a compressed base uses a parented diff, not a sparse overlay"@,
            ),
        )
    } else if g.hunk_bytes == 0 || g.unit_bytes == 0 {
        Some((DiskErrorKind::InvalidData, "base CHD reports a zero hunk or unit size"@))
    } else {
        None
    }
}

/// A sparse overlay can be made exactly for an uncompressed base with hunks and sectors
/// of some size, whatever else its header says.
pub proof fn law_which_bases_take_an_overlay(g: ChdGeometry)
    ensures
        create_error(g) is None <==> !g.compressed && g.hunk_bytes > 0 && g.unit_bytes > 0,
        create_error(g) matches Some(e) ==> (e.0 == DiskErrorKind::InvalidInput <==> g.compressed),
{
}

/// The record of a fresh overlay of a base.
pub open spec fn fresh_record(g: ChdGeometry, id: BaseIdentity) -> HeaderView {
    HeaderView {
        base_logical: g.logical_bytes,
        base_hunk_bytes: g.hunk_bytes,
        base_unit_bytes: g.unit_bytes,
        base_len: id.len,
        base_mtime_secs: id.mtime_secs,
        base_mtime_nanos: id.mtime_nanos,
        zero_hunks: Seq::new(((g.hunk_count + 7) / 8) as nat, |i: int| 0u8),
    }
}

/// The record of a fresh overlay: the base's geometry and identity, and no hunk
/// marked.
pub fn fresh_header(g: ChdGeometry, id: BaseIdentity) -> (r: Result<OverlayHeader, DiskError>)
    ensures
        match r {
            Ok(h) => {
                &&& create_error(g) is None
                &&& h@ == (HeaderView {
                    base_logical: g.logical_bytes,
                    base_hunk_bytes: g.hunk_bytes,
                    base_unit_bytes: g.unit_bytes,
                    base_len: id.len,
                    base_mtime_secs: id.mtime_secs,
                    base_mtime_nanos: id.mtime_nanos,
                    zero_hunks: Seq::new(((g.hunk_count + 7) / 8) as nat, |i: int| 0u8),
                })
                &&& h@ == fresh_record(g, id)
            },
            Err(e) => create_error(g) == Some(e@),
        },
{
    if g.compressed {
        return Err(
            invalid_input(owned("a compressed base uses a parented diff, not a sparse overlay")),
        );
    }
    if g.hunk_bytes == 0 || g.unit_bytes == 0 {
        return Err(invalid_data(owned("base CHD reports a zero hunk or unit size")));
    }
    let n: u64 = (g.hunk_count as u64 + 7) / 8;
    let mut zero_hunks: Vec<u8> = Vec::new();
    while (zero_hunks.len() as u64) < n
        invariant
            zero_hunks.len() <= n,
            zero_hunks@ == Seq::new(zero_hunks@.len(), |i: int| 0u8),
        decreases n - zero_hunks.len(),
    {
        zero_hunks.push(0);
        proof {
            assert(zero_hunks@ =~= Seq::new(zero_hunks@.len(), |i: int| 0u8));
        }
    }
    Ok(
        OverlayHeader {
            base_logical: g.logical_bytes,
            base_hunk_bytes: g.hunk_bytes,
            base_unit_bytes: g.unit_bytes,
            base_len: id.len,
            base_mtime_secs: id.mtime_secs,
            base_mtime_nanos: id.mtime_nanos,
            zero_hunks,
        },
    )
}

/// The record was made for a base of this geometry.
pub open spec fn same_geometry(h: HeaderView, g: ChdGeometry) -> bool {
    h.base_logical == g.logical_bytes && h.base_hunk_bytes == g.hunk_bytes && h.base_unit_bytes
        == g.unit_bytes
}

/// The record was made for this very base file.
pub open spec fn same_file(h: HeaderView, id: BaseIdentity) -> bool {
    h.base_len == id.len && h.base_mtime_secs == id.mtime_secs && h.base_mtime_nanos
        == id.mtime_nanos
}

/// Why an overlay cannot be attached to a base, if it cannot: the geometry is
/// another, so that a hunk index means something else, or the base changed since
/// the overlay was made.
pub open spec fn attach_error(
    h: HeaderView,
    g: ChdGeometry,
    id: BaseIdentity,
    base: Seq<char>,
    overlay: Seq<char>,
) -> Option<Seq<char>> {
    if !same_geometry(h, g) {
        Some(
            "overlay "@ + overlay + " was made for a "@ + crate::text::decimal(
                h.base_logical as nat,
            ) + "-byte disk with "@ + crate::text::decimal(h.base_hunk_bytes as nat)
                + "-byte hunks; the base is now "@ + crate::text::decimal(g.logical_bytes as nat)
                + " bytes with "@ + crate::text::decimal(g.hunk_bytes as nat) + "-byte hunks"@,
        )
    } else if !same_file(h, id) {
        Some(
            "the base CHD "@ + base
                + " changed since its COW overlay was created, so the overlay's copied-up hunks no longer line up with it. Commit or discard "@
                + overlay + " deliberately — IRIS will not guess which one you meant."@,
        )
    } else {
        None
    }
}

/// Whether an overlay with this record can be attached to a base.
pub fn check_attach(
    h: &OverlayHeader,
    g: ChdGeometry,
    id: BaseIdentity,
    base: &str,
    overlay: &str,
) -> (r: Result<(), DiskError>)
    ensures
        match r {
            Ok(_) => attach_error(h@, g, id, base@, overlay@) is None,
            Err(e) => attach_error(h@, g, id, base@, overlay@) matches Some(why) && e@ == (
                DiskErrorKind::InvalidData,
                why,
            ),
        },
        r is Ok <==> h.base_logical == g.logical_bytes && h.base_hunk_bytes == g.hunk_bytes
            && h.base_unit_bytes == g.unit_bytes && h.base_len == id.len && h.base_mtime_secs
            == id.mtime_secs && h.base_mtime_nanos == id.mtime_nanos,
{
    if h.base_logical != g.logical_bytes || h.base_hunk_bytes != g.hunk_bytes || h.base_unit_bytes
        != g.unit_bytes {
        let mut m = owned("overlay ");
        m.append(overlay);
        m.append(" was made for a ");
        push_decimal(&mut m, h.base_logical);
        m.append("-byte disk with ");
        push_decimal(&mut m, h.base_hunk_bytes as u64);
        m.append("-byte hunks; the base is now ");
        push_decimal(&mut m, g.logical_bytes);
        m.append(" bytes with ");
        push_decimal(&mut m, g.hunk_bytes as u64);
        m.append("-byte hunks");
        return Err(invalid_data(m));
    }
    if h.base_len != id.len || h.base_mtime_secs != id.mtime_secs || h.base_mtime_nanos
        != id.mtime_nanos {
        let mut m = owned("the base CHD ");
        m.append(base);
        m.append(
            " changed since its COW overlay was created, so the overlay's copied-up hunks no longer line up with it. Commit or discard ",
        );
        m.append(overlay);
        m.append(" deliberately — IRIS will not guess which one you meant.");
        return Err(invalid_data(m));
    }
    Ok(())
}

/// An overlay attaches to a base exactly if the base has the size, the hunks and the
/// sectors that the record names, and the base file has the length and the modification
/// time, to the nanosecond, that the record names. Where the files are called decides
/// nothing.
pub proof fn law_only_the_same_base_attaches(
    h: HeaderView,
    g: ChdGeometry,
    id: BaseIdentity,
    base: Seq<char>,
    overlay: Seq<char>,
)
    ensures
        attach_error(h, g, id, base, overlay) is None <==> {
            &&& h.base_logical == g.logical_bytes
            &&& h.base_hunk_bytes == g.hunk_bytes
            &&& h.base_unit_bytes == g.unit_bytes
            &&& h.base_len == id.len
            &&& h.base_mtime_secs == id.mtime_secs
            &&& h.base_mtime_nanos == id.mtime_nanos
        },
{
}

/// A base that changed under its overlay is noticed: a record that attaches to a base
/// file attaches to no file of another length or another modification time, and to no
/// base of another size, hunk size or sector size.
pub proof fn law_a_changed_base_is_refused(
    h: HeaderView,
    g: ChdGeometry,
    id: BaseIdentity,
    g2: ChdGeometry,
    id2: BaseIdentity,
    base: Seq<char>,
    overlay: Seq<char>,
)
    requires
        attach_error(h, g, id, base, overlay) is None,
    ensures
        attach_error(h, g, id2, base, overlay) is None <==> id2 == id,
        attach_error(h, g2, id, base, overlay) is None <==> g2.logical_bytes == g.logical_bytes
            && g2.hunk_bytes == g.hunk_bytes && g2.unit_bytes == g.unit_bytes,
{
}

/// Whether a commit of this overlay can write into this base: hunks of the same
/// size, and as many of them.
pub fn check_apply(
    ov_hunk_bytes: u32,
    ov_hunk_count: u32,
    g: ChdGeometry,
    base: &str,
    overlay: &str,
) -> (r: Result<(), DiskError>)
    ensures
        match r {
            Ok(_) => g.hunk_bytes == ov_hunk_bytes && g.hunk_count == ov_hunk_count,
            Err(e) => {
                &&& g.hunk_bytes != ov_hunk_bytes || g.hunk_count != ov_hunk_count
                &&& e@ == (
                    DiskErrorKind::InvalidData,
                    "overlay "@ + overlay@ + " describes "@ + crate::text::decimal(
                        ov_hunk_count as nat,
                    ) + " hunks of "@ + crate::text::decimal(ov_hunk_bytes as nat)
                        + " bytes; base "@ + base@ + " has "@ + crate::text::decimal(
                        g.hunk_count as nat,
                    ) + " of "@ + crate::text::decimal(g.hunk_bytes as nat),
                )
            },
        },
{
    if g.hunk_bytes != ov_hunk_bytes || g.hunk_count != ov_hunk_count {
        let mut m = owned("overlay ");
        m.append(overlay);
        m.append(" describes ");
        push_decimal(&mut m, ov_hunk_count as u64);
        m.append(" hunks of ");
        push_decimal(&mut m, ov_hunk_bytes as u64);
        m.append(" bytes; base ");
        m.append(base);
        m.append(" has ");
        push_decimal(&mut m, g.hunk_count as u64);
        m.append(" of ");
        push_decimal(&mut m, g.hunk_bytes as u64);
        return Err(invalid_data(m));
    }
    Ok(())
}

/// A record is taken for what its fields say.
pub proof fn law_views_of_records(h: OverlayHeader)
    ensures
        h@.base_logical == h.base_logical && h@.base_hunk_bytes == h.base_hunk_bytes,
        h@.base_unit_bytes == h.base_unit_bytes && h@.base_len == h.base_len,
        h@.base_mtime_secs == h.base_mtime_secs && h@.base_mtime_nanos == h.base_mtime_nanos,
        h@.zero_hunks == h.zero_hunks@,
{
}

/// What is said of a base that an overlay does not attach to: where the geometry differs, the
/// overlay is named with the geometry of its record; where only the file differs, the base is.
pub proof fn law_what_is_said_of_another_base(
    h: HeaderView,
    g: ChdGeometry,
    id: BaseIdentity,
    base: Seq<char>,
    overlay: Seq<char>,
)
    ensures
        h.base_logical != g.logical_bytes || h.base_hunk_bytes != g.hunk_bytes || h.base_unit_bytes
            != g.unit_bytes ==> (attach_error(h, g, id, base, overlay) matches Some(e)
            && crate::text::begins_with(
            e,
            "overlay "@ + overlay + " was made for a "@ + crate::text::decimal(
                h.base_logical as nat,
            ) + "-byte disk with "@ + crate::text::decimal(h.base_hunk_bytes as nat),
        )),
        h.base_logical == g.logical_bytes && h.base_hunk_bytes == g.hunk_bytes && h.base_unit_bytes
            == g.unit_bytes && (h.base_len != id.len || h.base_mtime_secs != id.mtime_secs
            || h.base_mtime_nanos != id.mtime_nanos) ==> (attach_error(
            h,
            g,
            id,
            base,
            overlay,
        ) matches Some(e) && crate::text::begins_with(e, "the base CHD "@ + base)),
{
    let a = "overlay "@ + overlay + " was made for a "@ + crate::text::decimal(
        h.base_logical as nat,
    ) + "-byte disk with "@ + crate::text::decimal(h.base_hunk_bytes as nat);
    let b = "the base CHD "@ + base;
    if attach_error(h, g, id, base, overlay) is Some {
        let e = attach_error(h, g, id, base, overlay)->0;
        if !same_geometry(h, g) {
            assert(e.take(a.len() as int) =~= a);
        } else {
            assert(e.take(b.len() as int) =~= b);
        }
    }
}

/// A fresh overlay attaches to the base that it was made for, and to no base file that has
/// changed since. It has a bit for every hunk, and owns none; its record reads back as itself.
pub proof fn law_a_fresh_overlay_belongs_to_its_base(
    g: ChdGeometry,
    id: BaseIdentity,
    id2: BaseIdentity,
    base: Seq<char>,
    overlay: Seq<char>,
    hunk: u32,
)
    ensures
        attach_error(fresh_record(g, id), g, id2, base, overlay) is None <==> id2 == id,
        !marked(fresh_record(g, id).zero_hunks, hunk),
        g.hunk_count <= 8 * fresh_record(g, id).zero_hunks.len() < g.hunk_count + 8,
        is_record_of(record_bytes(fresh_record(g, id)), fresh_record(g, id)),
{
    let h = fresh_record(g, id);
    law_record_round_trip(h);
    law_where_a_bit_stands(h.zero_hunks, hunk);
    if hunk / 8 < h.zero_hunks.len() {
        let b = h.zero_hunks[(hunk / 8) as int];
        let k = hunk % 8;
        assert((0u8 >> k) % 2 == 0) by (bit_vector);
    }
}

/// The bitmap of an overlay has a bit for every hunk of the disk and fewer than eight to spare.
pub proof fn law_every_hunk_has_a_bit(ov: OverlayFile, hunk: u32)
    requires
        ov.wf(),
    ensures
        ov.hunks() <= 8 * ov.record().zero_hunks.len() < ov.hunks() + 8,
        hunk < ov.hunks() ==> hunk / 8 < ov.record().zero_hunks.len(),
{
}

} // verus!
