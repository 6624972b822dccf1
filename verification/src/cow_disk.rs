//! Copy-on-write overlay of a raw disk image.
//!
//! Writes go to an overlay file and never to the base image. A list of dirty
//! sectors says which sectors the overlay holds; without that list the bytes of
//! the overlay mean nothing. The list lives in memory and in a sidecar file beside
//! the overlay.
//!
//! This module decides what is read from where, what is written, and in which
//! order the files change; the caller carries the steps out.
use std::collections::HashSet;
use vstd::prelude::*;
use crate::bytes::le_at;
use crate::bytes::push_le;
use crate::disk_error::invalid_data;
use crate::disk_error::invalid_input;
use crate::disk_error::not_found;
use crate::disk_error::DiskError;
use crate::disk_error::DiskErrorKind;
use crate::sorting::sorted;
use crate::text::owned;
use crate::text::push_decimal;

verus! {

/// Bytes in a sector.
pub const SECTOR_SIZE: u64 = 512;

// ---------------------------------------------------------------------------
// The model: what a disk holds
// ---------------------------------------------------------------------------

/// What the guest sees: the overlay's bytes in dirty sectors, the base's bytes in
/// the others.
pub open spec fn merged(base: Seq<u8>, overlay: Seq<u8>, dirty: Set<u64>) -> Seq<u8> {
    Seq::new(
        base.len(),
        |i: int|
            if dirty.contains((i / 512) as u64) {
                overlay[i]
            } else {
                base[i]
            },
    )
}

/// A file after a write at `at`: bytes outside of the write stay, and a write past
/// the end extends the file, with zeros in between.
pub open spec fn written(file: Seq<u8>, at: int, data: Seq<u8>) -> Seq<u8> {
    let len = if at + data.len() > file.len() { at + data.len() } else { file.len() as int };
    Seq::new(
        len as nat,
        |i: int|
            if at <= i < at + data.len() {
                data[i - at]
            } else if i < file.len() {
                file[i]
            } else {
                0u8
            },
    )
}

/// The sectors from `lba` on, `count` of them.
pub open spec fn sector_range(lba: int, count: int) -> Set<u64> {
    Set::new(|s: u64| lba <= s < lba + count)
}

/// The overlay file reaches over every dirty sector.
pub open spec fn covers(overlay: Seq<u8>, dirty: Set<u64>) -> bool {
    forall|s: u64| #[trigger] dirty.contains(s) ==> (s + 1) * 512 <= overlay.len()
}

/// Reading after a write gives back what was written, and everything else as it
/// was: writing to the overlay and marking the sectors dirty changes what the guest
/// sees by exactly that write. The base is not part of the change.
pub proof fn law_read_after_write(
    base: Seq<u8>,
    overlay: Seq<u8>,
    dirty: Set<u64>,
    lba: int,
    data: Seq<u8>,
)
    requires
        covers(overlay, dirty),
        data.len() % 512 == 0,
        0 <= lba,
        lba * 512 + data.len() <= base.len(),
        base.len() <= u64::MAX,
    ensures
        merged(
            base,
            written(overlay, lba * 512, data),
            dirty.union(sector_range(lba, data.len() as int / 512)),
        ) == written(merged(base, overlay, dirty), lba * 512, data),
        covers(
            written(overlay, lba * 512, data),
            dirty.union(sector_range(lba, data.len() as int / 512)),
        ),
{
    let count = data.len() as int / 512;
    let o2 = written(overlay, lba * 512, data);
    let d2 = dirty.union(sector_range(lba, count));
    let left = merged(base, o2, d2);
    let right = written(merged(base, overlay, dirty), lba * 512, data);
    assert forall|i: int| 0 <= i < base.len() implies left[i] == right[i] by {
        let s = (i / 512) as u64;
        assert(s == i / 512);
        if lba * 512 <= i < lba * 512 + data.len() {
            assert(lba <= i / 512 < lba + count);
        } else {
            assert(!(lba <= i / 512 < lba + count));
            if dirty.contains(s) {
                assert((s + 1) * 512 <= overlay.len());
            }
        }
    }
    assert(left =~= right);
    assert forall|s: u64| #[trigger] d2.contains(s) implies (s + 1) * 512 <= o2.len() by {
        if dirty.contains(s) {
            assert((s + 1) * 512 <= overlay.len());
        }
    }
}

// ---------------------------------------------------------------------------
// The sidecar
// ---------------------------------------------------------------------------

/// Path of the sidecar that holds the dirty list of an overlay.
pub fn dirty_sidecar_path(overlay_path: &str) -> (r: String)
    ensures
        r@ == overlay_path@ + ".dirty"@,
{
    let mut p = owned(overlay_path);
    p.append(".dirty");
    p
}

/// The entries that a list of this many bytes has room for.
pub open spec fn entries_in(len: int) -> int {
    (len - 8) / 8
}

/// The entry of the list at index `i`.
pub open spec fn entry(raw: Seq<u8>, i: int) -> u64 {
    crate::bytes::le_value(raw.subrange(8 + 8 * i, 16 + 8 * i)) as u64
}

/// The first entry from `from` on that is not a sector of the disk.
pub open spec fn first_foreign(raw: Seq<u8>, max_sector: u64, from: int) -> Option<int>
    decreases entries_in(raw.len() as int) - from,
{
    if from < 0 || from >= entries_in(raw.len() as int) {
        None
    } else if entry(raw, from) >= max_sector {
        Some(from)
    } else {
        first_foreign(raw, max_sector, from + 1)
    }
}

/// What is wrong with a dirty list, if anything: too short for its count, a count
/// that is not the number of its entries, or an entry past the end of the disk.
pub open spec fn list_error(path: Seq<char>, raw: Seq<u8>, max_sector: u64) -> Option<
    (DiskErrorKind, Seq<char>),
> {
    if raw.len() < 8 {
        Some(
            (
                DiskErrorKind::InvalidData,
                path + ": dirty list is too short to hold its own header"@,
            ),
        )
    } else {
        let count = crate::bytes::le_value(raw.take(8));
        let held = entries_in(raw.len() as int);
        if count != held {
            Some(
                (
                    DiskErrorKind::InvalidData,
                    path + ": dirty list claims "@ + crate::text::decimal(count)
                        + " sectors but the file holds "@ + crate::text::decimal(held as nat),
                ),
            )
        } else {
            match first_foreign(raw, max_sector, 0) {
                Some(i) => Some(
                    (
                        DiskErrorKind::InvalidData,
                        path + ": dirty list names sector "@ + crate::text::decimal(
                            entry(raw, i) as nat,
                        ) + " on a "@ + crate::text::decimal(max_sector as nat) + "-sector disk"@,
                    ),
                ),
                None => None,
            }
        }
    }
}

/// The sectors that a dirty list names.
pub open spec fn listed(raw: Seq<u8>) -> Set<u64> {
    Seq::new(entries_in(raw.len() as int) as nat, |i: int| entry(raw, i)).to_set()
}

/// The bytes of a list with these entries.
pub open spec fn list_bytes(q: Seq<u64>) -> Seq<u8>
    decreases q.len(),
{
    if q.len() == 0 {
        seq![]
    } else {
        list_bytes(q.drop_last()) + crate::bytes::le_bytes(q.last() as nat, 8)
    }
}

/// The sidecar of a dirty set: the number of entries, then the entries, ascending.
pub open spec fn sidecar_bytes(dirty: Set<u64>) -> Seq<u8> {
    let q = crate::sorting::ascending_list(dirty);
    crate::bytes::le_bytes(q.len(), 8) + list_bytes(q)
}

/// Reads a dirty list, refusing one that cannot have been written here. The count
/// is held against the length of the file before it is used for anything.
pub fn load_dirty_list(path: &str, raw: &[u8], max_sector: u64) -> (r: Result<
    HashSet<u64>,
    DiskError,
>)
    ensures
        match r {
            Ok(set) => list_error(path@, raw@, max_sector) is None && set@ == listed(raw@),
            Err(e) => list_error(path@, raw@, max_sector) == Some(e@),
        },
{
    if raw.len() < 8 {
        let mut m = owned(path);
        m.append(": dirty list is too short to hold its own header");
        return Err(invalid_data(m));
    }
    let count: u64 = le_at(raw, 0, 8);
    proof {
        assert(raw@.subrange(0, 8) =~= raw@.take(8));
    }
    let available: usize = (raw.len() - 8) / 8;
    if count != available as u64 {
        let mut m = owned(path);
        m.append(": dirty list claims ");
        push_decimal(&mut m, count);
        m.append(" sectors but the file holds ");
        push_decimal(&mut m, available as u64);
        return Err(invalid_data(m));
    }
    let mut set: HashSet<u64> = HashSet::new();
    let mut i: usize = 0;
    let ghost all = Seq::new(entries_in(raw@.len() as int) as nat, |k: int| entry(raw@, k));
    proof {
        assert(all.take(0).to_set() =~= Set::<u64>::empty());
    }
    while i < available
        invariant
            raw.len() >= 8,
            available == entries_in(raw@.len() as int),
            all == Seq::new(entries_in(raw@.len() as int) as nat, |k: int| entry(raw@, k)),
            i <= available,
            set@ == all.take(i as int).to_set(),
            first_foreign(raw@, max_sector, 0) == first_foreign(raw@, max_sector, i as int),
            count == available,
            count == crate::bytes::le_value(raw@.take(8)),
        decreases available - i,
    {
        let lba: u64 = le_at(raw, 8 + 8 * i, 8);
        proof {
            assert(lba == entry(raw@, i as int));
        }
        if lba >= max_sector {
            let mut m = owned(path);
            m.append(": dirty list names sector ");
            push_decimal(&mut m, lba);
            m.append(" on a ");
            push_decimal(&mut m, max_sector);
            m.append("-sector disk");
            return Err(invalid_data(m));
        }
        set.insert(lba);
        proof {
            let front = all.take(i as int);
            let next = all.take(i + 1);
            assert(next =~= front.push(lba));
            assert forall|x: u64| next.to_set().contains(x) <==> front.to_set().insert(
                lba,
            ).contains(x) by {
                if front.contains(x) {
                    assert(next[front.index_of(x)] == x);
                }
                if x == lba {
                    assert(next[i as int] == x);
                }
                if next.contains(x) {
                    let k = next.index_of(x);
                    if k < i {
                        assert(front[k] == x);
                    }
                }
            }
            assert(next.to_set() =~= front.to_set().insert(lba));
        }
        i = i + 1;
    }
    proof {
        assert(all.take(available as int) =~= all);
    }
    Ok(set)
}

fn list_of(set: &HashSet<u64>) -> (r: Vec<u64>)
    ensures
        r@ == crate::sorting::ascending_list(set@),
        crate::sorting::ascending(r@),
        r@.to_set() == set@,
        r.len() == set@.len(),
{
    let mut out: Vec<u64> = Vec::new();
    for x in it: set.iter()
        invariant
            out@.len() == it.index(),
            it.index() <= it.seq().len(),
            it.seq().unref().to_set() == set@,
            it.seq().no_duplicates(),
            forall|k: int| 0 <= k < out@.len() ==> out@[k] == *it.seq()[k],
            it.index() == it.seq().len() ==> out@ =~= it.seq().unref(),
    {
        out.push(*x);
    }
    let r = sorted(&out);
    proof {
        crate::sorting::lemma_ascending_list(r@, set@);
        r@.unique_seq_to_set();
    }
    r
}

/// The sidecar of a dirty set.
pub fn save_dirty_list(dirty: &HashSet<u64>) -> (r: Vec<u8>)
    ensures
        r@ == sidecar_bytes(dirty@),
{
    let q = list_of(dirty);
    let mut out: Vec<u8> = Vec::new();
    push_le(&mut out, q.len() as u64, 8);
    let ghost head = crate::bytes::le_bytes(q@.len(), 8);
    let mut i: usize = 0;
    proof {
        assert(out@ =~= head + list_bytes(q@.take(0)));
    }
    while i < q.len()
        invariant
            i <= q.len(),
            out@ == head + list_bytes(q@.take(i as int)),
        decreases q.len() - i,
    {
        push_le(&mut out, q[i], 8);
        i = i + 1;
        proof {
            assert(q@.take(i as int).drop_last() =~= q@.take(i - 1));
            assert(out@ =~= head + list_bytes(q@.take(i as int)));
        }
    }
    proof {
        assert(q@.take(q@.len() as int) =~= q@);
    }
    out
}

proof fn lemma_list_bytes(q: Seq<u64>, i: int)
    requires
        0 <= i < q.len(),
    ensures
        list_bytes(q).len() == 8 * q.len(),
        list_bytes(q).subrange(8 * i, 8 * i + 8) == crate::bytes::le_bytes(q[i] as nat, 8),
    decreases q.len(),
{
    let front = q.drop_last();
    crate::bytes::lemma_le_len(q.last() as nat, 8);
    if i < front.len() {
        lemma_list_bytes(front, i);
        assert(list_bytes(q).subrange(8 * i, 8 * i + 8) =~= list_bytes(front).subrange(
            8 * i,
            8 * i + 8,
        ));
    } else {
        if front.len() > 0 {
            lemma_list_bytes(front, 0);
        }
        assert(list_bytes(front).len() == 8 * front.len());
        assert(list_bytes(q).subrange(8 * i, 8 * i + 8) =~= crate::bytes::le_bytes(
            q.last() as nat,
            8,
        ));
    }
}

/// A dirty set comes back from its sidecar, on any disk that has all its sectors.
pub proof fn law_sidecar_round_trip(path: Seq<char>, dirty: Set<u64>, max_sector: u64)
    requires
        dirty.finite(),
        dirty.len() < 0x1000_0000_0000_0000,
        forall|s: u64| dirty.contains(s) ==> s < max_sector,
    ensures
        list_error(path, sidecar_bytes(dirty), max_sector) is None,
        listed(sidecar_bytes(dirty)) == dirty,
{
    lemma_finite_sets_have_lists(dirty);
    let q = crate::sorting::ascending_list(dirty);
    let raw = sidecar_bytes(dirty);
    crate::bytes::lemma_le_len(q.len(), 8);
    crate::bytes::lemma_le_bounds();
    q.unique_seq_to_set();
    crate::bytes::lemma_le_round_trip(q.len(), 8);
    if q.len() > 0 {
        lemma_list_bytes(q, 0);
    }
    assert(raw.len() == 8 + 8 * q.len());
    assert(raw.take(8) =~= crate::bytes::le_bytes(q.len(), 8));
    assert(entries_in(raw.len() as int) == q.len());
    assert forall|i: int| 0 <= i < q.len() implies entry(raw, i) == q[i] by {
        lemma_list_bytes(q, i);
        assert(raw.subrange(8 + 8 * i, 16 + 8 * i) =~= list_bytes(q).subrange(8 * i, 8 * i + 8));
        crate::bytes::lemma_le_round_trip(q[i] as nat, 8);
    }
    assert(Seq::new(q.len(), |i: int| entry(raw, i)) =~= q);
    lemma_no_foreign(raw, max_sector, q, dirty, 0);
}

proof fn lemma_no_foreign(raw: Seq<u8>, max_sector: u64, q: Seq<u64>, dirty: Set<u64>, from: int)
    requires
        0 <= from <= q.len(),
        entries_in(raw.len() as int) == q.len(),
        forall|i: int| 0 <= i < q.len() ==> entry(raw, i) == q[i],
        q.to_set() == dirty,
        forall|s: u64| dirty.contains(s) ==> s < max_sector,
    ensures
        first_foreign(raw, max_sector, from) is None,
    decreases q.len() - from,
{
    if from < q.len() {
        assert(q.to_set().contains(q[from]));
        lemma_no_foreign(raw, max_sector, q, dirty, from + 1);
    }
}

proof fn lemma_finite_sets_have_lists(s: Set<u64>)
    requires
        s.finite(),
    ensures
        crate::sorting::ascending(crate::sorting::ascending_list(s)),
        crate::sorting::ascending_list(s).to_set() == s,
        crate::sorting::ascending_list(s).no_duplicates(),
{
    let q = lemma_list_exists(s);
    crate::sorting::lemma_ascending_list(q, s);
}

proof fn lemma_list_exists(s: Set<u64>) -> (q: Seq<u64>)
    requires
        s.finite(),
    ensures
        crate::sorting::ascending(q),
        q.to_set() == s,
        q.no_duplicates(),
    decreases s.len(),
{
    if s.len() == 0 {
        assert(Seq::<u64>::empty().to_set() =~= s);
        Seq::empty()
    } else {
        let x = lemma_greatest(s);
        let front = lemma_list_exists(s.remove(x));
        let q = front.push(x);
        assert forall|i: int| 0 <= i < front.len() implies front[i] < x by {
            assert(front.to_set().contains(front[i]));
        }
        assert forall|y: u64| q.to_set().contains(y) <==> s.contains(y) by {
            if q.contains(y) {
                let k = q.index_of(y);
                if k < front.len() {
                    assert(front.to_set().contains(front[k]));
                }
            }
            if s.contains(y) {
                if y == x {
                    assert(q[front.len() as int] == y);
                } else {
                    assert(front.to_set().contains(y));
                    assert(q[front.index_of(y)] == y);
                }
            }
        }
        assert(q.to_set() =~= s);
        q
    }
}

proof fn lemma_greatest(s: Set<u64>) -> (x: u64)
    requires
        s.finite(),
        s.len() > 0,
    ensures
        s.contains(x),
        forall|y: u64| s.contains(y) ==> y <= x,
    decreases s.len(),
{
    let c = s.choose();
    let rest = s.remove(c);
    if rest.len() == 0 {
        assert forall|y: u64| s.contains(y) implies y <= c by {
            if y != c {
                assert(rest.contains(y));
            }
        }
        c
    } else {
        let m = lemma_greatest(rest);
        let x = if c > m { c } else { m };
        assert forall|y: u64| s.contains(y) implies y <= x by {
            if y != c {
                assert(rest.contains(y));
            }
        }
        x
    }
}

// ---------------------------------------------------------------------------
// The disk
// ---------------------------------------------------------------------------

/// A run of sectors that come from one file.
#[derive(Clone, Copy, Debug, PartialEq, Eq, Structural)]
pub struct ReadRun {
    /// The run comes from the overlay, not from the base.
    pub from_overlay: bool,
    /// First sector; its place in the file is this many sectors from the start.
    pub sector: u64,
    /// Number of sectors.
    pub sectors: u64,
}

/// The bytes that a run reads.
pub open spec fn run_bytes(run: ReadRun, base: Seq<u8>, overlay: Seq<u8>) -> Seq<u8> {
    let file = if run.from_overlay { overlay } else { base };
    file.subrange(run.sector * 512, (run.sector + run.sectors) * 512)
}

/// The bytes that the runs read, one after the other.
pub open spec fn assembled(runs: Seq<ReadRun>, base: Seq<u8>, overlay: Seq<u8>) -> Seq<u8>
    decreases runs.len(),
{
    if runs.len() == 0 {
        seq![]
    } else {
        assembled(runs.drop_last(), base, overlay) + run_bytes(runs.last(), base, overlay)
    }
}

/// Every sector of the run is dirty, or none is.
pub open spec fn uniform(run: ReadRun, dirty: Set<u64>) -> bool {
    forall|s: u64|
        run.sector <= s < run.sector + run.sectors ==> #[trigger] dirty.contains(s)
            == run.from_overlay
}

/// The runs cover the sectors from `lba` to `end` without gap or overlap, each
/// takes its sectors from the file that holds them, and no two neighbours could be
/// one run.
pub open spec fn tiles(runs: Seq<ReadRun>, lba: int, end: int, dirty: Set<u64>) -> bool
    decreases runs.len(),
{
    if runs.len() == 0 {
        lba == end
    } else {
        let run = runs.last();
        &&& run.sectors > 0
        &&& run.sector + run.sectors == end
        &&& uniform(run, dirty)
        &&& tiles(runs.drop_last(), lba, run.sector as int, dirty)
        &&& runs.len() > 1 ==> runs[runs.len() - 2].from_overlay != run.from_overlay
    }
}

/// Runs that cover a range read what the guest sees in it.
pub proof fn law_reads_see_the_merged_disk(
    runs: Seq<ReadRun>,
    lba: int,
    end: int,
    dirty: Set<u64>,
    base: Seq<u8>,
    overlay: Seq<u8>,
)
    requires
        tiles(runs, lba, end, dirty),
        covers(overlay, dirty),
        0 <= lba,
        end * 512 <= base.len(),
        base.len() <= u64::MAX,
    ensures
        lba <= end,
        assembled(runs, base, overlay) == merged(base, overlay, dirty).subrange(
            lba * 512,
            end * 512,
        ),
    decreases runs.len(),
{
    let m = merged(base, overlay, dirty);
    if runs.len() == 0 {
        assert(m.subrange(lba * 512, end * 512) =~= seq![]);
    } else {
        let run = runs.last();
        law_reads_see_the_merged_disk(
            runs.drop_last(),
            lba,
            run.sector as int,
            dirty,
            base,
            overlay,
        );
        let a = run.sector * 512;
        let b = end * 512;
        if run.from_overlay {
            assert(dirty.contains((end - 1) as u64));
        }
        assert(run_bytes(run, base, overlay) =~= m.subrange(a, b)) by {
            assert forall|i: int| a <= i < b implies (if run.from_overlay {
                overlay[i]
            } else {
                base[i]
            }) == m[i] by {
                let s = (i / 512) as u64;
                assert(run.sector <= s < run.sector + run.sectors);
                assert(dirty.contains(s) == run.from_overlay);
            }
        }
        assert(m.subrange(lba * 512, a) + m.subrange(a, b) =~= m.subrange(lba * 512, b));
    }
}

/// One step of a change to the files of a disk.
#[derive(Clone, Copy, Debug, PartialEq, Eq, Structural)]
pub enum FileStep {
    /// Copy one sector from the overlay to the base.
    CopySector(u64),
    /// Make the base durable.
    SyncBase,
    /// Forget the dirty set, in memory.
    ForgetDirty,
    /// Write the dirty set that is in memory to the sidecar, durably.
    SaveList,
    /// Truncate the overlay to nothing.
    TruncateOverlay,
    /// Make the overlay durable.
    SyncOverlay,
    /// Reopen the base, to read what was committed.
    ReopenBase,
}

/// The steps of a commit: the dirty sectors are copied front to back and the base
/// is made durable; only when the empty list is durable does the overlay go.
pub open spec fn commit_plan(dirty: Set<u64>) -> Seq<FileStep> {
    crate::sorting::ascending_list(dirty).map_values(|s: u64| FileStep::CopySector(s)) + seq![
        FileStep::SyncBase,
        FileStep::ForgetDirty,
        FileStep::SaveList,
        FileStep::TruncateOverlay,
        FileStep::SyncOverlay,
        FileStep::ReopenBase,
    ]
}

/// The steps of a rollback, in the same order.
pub open spec fn reset_plan() -> Seq<FileStep> {
    seq![
        FileStep::ForgetDirty,
        FileStep::SaveList,
        FileStep::TruncateOverlay,
        FileStep::SyncOverlay,
    ]
}

/// The steps of a flush: the overlay's bytes are durable before the list that speaks of them.
pub open spec fn flush_plan() -> Seq<FileStep> {
    seq![FileStep::SyncOverlay, FileStep::SaveList]
}

/// What happens to the overlay when a snapshot is restored.
#[derive(Clone, Copy, Debug, PartialEq, Eq, Structural)]
pub enum ImportAction {
    /// The saved overlay replaces the current one.
    CopySaved,
    /// Nothing was saved and nothing is dirty: the overlay becomes empty.
    CreateEmpty,
}

/// What is wrong with a range of sectors, if anything.
pub open spec fn range_error(lba: u64, count: u64, sectors: u64) -> Option<
    (DiskErrorKind, Seq<char>),
> {
    if lba + count > u64::MAX {
        Some((DiskErrorKind::InvalidInput, "COW LBA range overflows"@))
    } else if lba + count > sectors {
        Some(
            (
                DiskErrorKind::InvalidInput,
                "COW LBA "@ + crate::text::decimal(lba as nat) + ".."@ + crate::text::decimal(
                    (lba + count) as nat,
                ) + " is outside the base image's "@ + crate::text::decimal(sectors as nat)
                    + " sectors"@,
            ),
        )
    } else {
        None
    }
}

/// What is wrong with a write, if anything.
pub open spec fn write_error(lba: u64, len: usize, sectors: u64) -> Option<
    (DiskErrorKind, Seq<char>),
> {
    if len % 512 != 0 {
        Some(
            (
                DiskErrorKind::InvalidInput,
                "COW write length "@ + crate::text::decimal(len as nat)
                    + " is not a multiple of 512"@,
            ),
        )
    } else {
        range_error(lba, (len / 512) as u64, sectors)
    }
}

/// The first sector of the list, from `from` on, that the disk does not have.
pub open spec fn first_past_end(dirty: Seq<u64>, sectors: u64, from: int) -> Option<int>
    decreases dirty.len() - from,
{
    if from < 0 || from >= dirty.len() {
        None
    } else if dirty[from] >= sectors {
        Some(from)
    } else {
        first_past_end(dirty, sectors, from + 1)
    }
}

/// What is wrong with restoring a snapshot, if anything: a sector that the disk
/// does not have, or sectors that are dirty in an overlay that is not there.
pub open spec fn import_error(
    source: Seq<char>,
    source_exists: bool,
    dirty: Seq<u64>,
    sectors: u64,
) -> Option<(DiskErrorKind, Seq<char>)> {
    match first_past_end(dirty, sectors, 0) {
        Some(i) => Some(
            (
                DiskErrorKind::InvalidData,
                "snapshot overlay names sector "@ + crate::text::decimal(dirty[i] as nat)
                    + " on a "@ + crate::text::decimal(sectors as nat) + "-sector disk"@,
            ),
        ),
        None => if !source_exists && dirty.len() > 0 {
            Some(
                (
                    DiskErrorKind::NotFound,
                    source + " is missing but its snapshot lists "@ + crate::text::decimal(
                        dirty.len(),
                    )
                        + " dirty sectors; restoring would point the disk at data that is not there"@,
                ),
            )
        } else {
            None
        },
    }
}

/// A copy-on-write disk.
pub struct CowDisk {
    dirty: HashSet<u64>,
    base_size: u64,
    overlay_path: String,
    base_path: String,
}

impl CowDisk {
    /// The dirty sectors.
    pub closed spec fn dirty_set(self) -> Set<u64> {
        self.dirty@
    }

    /// The size of the base image in bytes.
    pub closed spec fn bytes(self) -> u64 {
        self.base_size
    }

    /// The base image's path, as configured.
    pub closed spec fn base_file(self) -> Seq<char> {
        self.base_path@
    }

    /// The overlay's path, as configured.
    pub closed spec fn overlay_file(self) -> Seq<char> {
        self.overlay_path@
    }

    /// The sectors of the disk.
    pub open spec fn sectors(self) -> u64 {
        self.bytes() / 512
    }

    /// Every dirty sector is a sector of the disk.
    pub open spec fn wf(self) -> bool {
        forall|s: u64| #[trigger] self.dirty_set().contains(s) ==> s < self.sectors()
    }

    /// A disk over a base image of this size. The sidecar is read if there is one;
    /// a sidecar that cannot be trusted is an error, since starting clean would
    /// hide what an earlier session wrote.
    pub fn new(
        base_path: &str,
        overlay_path: &str,
        base_size: u64,
        sidecar: Option<&[u8]>,
    ) -> (r: Result<Self, DiskError>)
        ensures
            ({
                let path = overlay_path@ + ".dirty"@;
                let error = match sidecar {
                    Some(raw) => list_error(path, raw@, base_size / 512),
                    None => None,
                };
                match r {
                    Ok(disk) => {
                        &&& error is None
                        &&& disk.wf()
                        &&& disk.dirty_set() == match sidecar {
                            Some(raw) => listed(raw@),
                            None => Set::<u64>::empty(),
                        }
                        &&& disk.bytes() == base_size
                        &&& disk.base_file() == base_path@
                        &&& disk.overlay_file() == overlay_path@
                    },
                    Err(e) => error == Some(e@),
                }
            }),
    {
        let path = dirty_sidecar_path(overlay_path);
        let dirty = match sidecar {
            Some(raw) => match load_dirty_list(path.as_str(), raw, base_size / SECTOR_SIZE) {
                Ok(set) => {
                    proof {
                        lemma_listed_in_range(raw@, base_size / 512);
                    }
                    set
                },
                Err(e) => {
                    return Err(e);
                },
            },
            None => HashSet::new(),
        };
        Ok(
            CowDisk {
                dirty,
                base_size,
                overlay_path: owned(overlay_path),
                base_path: owned(base_path),
            },
        )
    }

    /// Sectors addressable on this disk.
    pub fn sector_count(&self) -> (r: u64)
        ensures
            r == self.sectors(),
    {
        self.base_size / SECTOR_SIZE
    }

    /// Whether a range of sectors lies on the disk.
    pub fn check_range(&self, lba: u64, count: u64) -> (r: Result<(), DiskError>)
        ensures
            match r {
                Ok(_) => range_error(lba, count, self.sectors()) is None,
                Err(e) => range_error(lba, count, self.sectors()) == Some(e@),
            },
    {
        let end: u64 = match lba.checked_add(count) {
            Some(end) => end,
            None => {
                return Err(invalid_input(owned("COW LBA range overflows")));
            },
        };
        if end > self.sector_count() {
            let mut m = owned("COW LBA ");
            push_decimal(&mut m, lba);
            m.append("..");
            push_decimal(&mut m, end);
            m.append(" is outside the base image's ");
            push_decimal(&mut m, self.sector_count());
            m.append(" sectors");
            return Err(invalid_input(m));
        }
        Ok(())
    }

    /// What to read for `count` sectors from `lba` on: runs from the overlay for
    /// dirty sectors and from the base for clean ones, as long as they can be.
    pub fn read_sectors(&self, lba: u64, count: u64) -> (r: Result<Vec<ReadRun>, DiskError>)
        ensures
            match r {
                Ok(runs) => {
                    &&& range_error(lba, count, self.sectors()) is None
                    &&& tiles(runs@, lba as int, lba + count, self.dirty_set())
                },
                Err(e) => range_error(lba, count, self.sectors()) == Some(e@),
            },
    {
        match self.check_range(lba, count) {
            Ok(_) => {},
            Err(e) => {
                return Err(e);
            },
        }
        let end: u64 = lba + count;
        let mut runs: Vec<ReadRun> = Vec::new();
        let mut sector: u64 = lba;
        while sector < end
            invariant
                lba <= sector <= end,
                tiles(runs@, lba as int, sector as int, self.dirty@),
                runs.len() > 0 && sector < end ==> self.dirty@.contains(sector)
                    != runs@.last().from_overlay,
            decreases end - sector,
        {
            let is_dirty = self.dirty.contains(&sector);
            let mut next: u64 = sector + 1;
            while next < end && self.dirty.contains(&next) == is_dirty
                invariant
                    sector < next <= end,
                    forall|s: u64|
                        sector <= s < next ==> #[trigger] self.dirty@.contains(s) == is_dirty,
                decreases end - next,
            {
                next = next + 1;
            }
            let run = ReadRun { from_overlay: is_dirty, sector, sectors: next - sector };
            let ghost front = runs@;
            runs.push(run);
            proof {
                assert(runs@.drop_last() =~= front);
                assert(uniform(run, self.dirty@));
            }
            sector = next;
        }
        Ok(runs)
    }

    /// Whether a write of `len` bytes at `lba` is accepted, and where in the overlay
    /// it goes. Nothing changes: the sectors become dirty once the overlay holds
    /// them, see [`CowDisk::mark_written`].
    pub fn write_sectors(&self, lba: u64, len: usize) -> (r: Result<u64, DiskError>)
        ensures
            match r {
                Ok(offset) => {
                    &&& write_error(lba, len, self.sectors()) is None
                    &&& offset == lba * 512
                    &&& offset + len <= self.bytes()
                },
                Err(e) => write_error(lba, len, self.sectors()) == Some(e@),
            },
    {
        if len % 512 != 0 {
            let mut m = owned("COW write length ");
            push_decimal(&mut m, len as u64);
            m.append(" is not a multiple of 512");
            return Err(invalid_input(m));
        }
        match self.check_range(lba, (len / 512) as u64) {
            Ok(_) => {},
            Err(e) => {
                return Err(e);
            },
        }
        Ok(lba * SECTOR_SIZE)
    }

    /// Records that the overlay holds `count` sectors from `lba` on.
    pub fn mark_written(&mut self, lba: u64, count: u64)
        requires
            old(self).wf(),
            lba + count <= old(self).sectors(),
        ensures
            final(self).wf(),
            final(self).dirty_set() == old(self).dirty_set().union(
                sector_range(lba as int, count as int),
            ),
            final(self).bytes() == old(self).bytes(),
            final(self).base_file() == old(self).base_file(),
            final(self).overlay_file() == old(self).overlay_file(),
    {
        let ghost before = self.dirty@;
        let mut i: u64 = 0;
        proof {
            assert(before.union(sector_range(lba as int, 0)) =~= before);
        }
        while i < count
            invariant
                lba + count <= self.base_size / 512,
                i <= count,
                self.dirty@ == before.union(sector_range(lba as int, i as int)),
                self.base_size == old(self).base_size,
                self.base_path == old(self).base_path,
                self.overlay_path == old(self).overlay_path,
            decreases count - i,
        {
            self.dirty.insert(lba + i);
            i = i + 1;
            proof {
                assert(self.dirty@ =~= before.union(sector_range(lba as int, i as int)));
            }
        }
        proof {
            assert forall|s: u64| #[trigger] self.dirty_set().contains(s) implies s
                < self.sectors() by {
                if before.contains(s) {
                    assert(old(self).dirty_set().contains(s));
                }
            }
        }
    }

    /// Base image size in bytes.
    pub fn size(&self) -> (r: u64)
        ensures
            r == self.bytes(),
    {
        self.base_size
    }

    /// The steps that merge the dirty sectors into the base and empty the overlay,
    /// and how many sectors that is.
    pub fn commit(&self) -> (r: (Vec<FileStep>, usize))
        ensures
            r.0@ == commit_plan(self.dirty_set()),
            r.1 == self.dirty_set().len(),
    {
        let sectors = list_of(&self.dirty);
        let mut steps: Vec<FileStep> = Vec::new();
        let mut i: usize = 0;
        let ghost copies = sectors@.map_values(|s: u64| FileStep::CopySector(s));
        while i < sectors.len()
            invariant
                i <= sectors.len(),
                copies == sectors@.map_values(|s: u64| FileStep::CopySector(s)),
                steps@ == copies.take(i as int),
            decreases sectors.len() - i,
        {
            steps.push(FileStep::CopySector(sectors[i]));
            i = i + 1;
            proof {
                assert(copies.take(i as int) =~= copies.take(i - 1).push(copies[i - 1]));
            }
        }
        steps.push(FileStep::SyncBase);
        steps.push(FileStep::ForgetDirty);
        steps.push(FileStep::SaveList);
        steps.push(FileStep::TruncateOverlay);
        steps.push(FileStep::SyncOverlay);
        steps.push(FileStep::ReopenBase);
        proof {
            assert(steps@ =~= commit_plan(self.dirty@));
        }
        (steps, sectors.len())
    }

    /// The steps that discard every overlay write.
    pub fn reset_overlay(&self) -> (r: Vec<FileStep>)
        ensures
            r@ == reset_plan(),
    {
        let mut steps: Vec<FileStep> = Vec::new();
        steps.push(FileStep::ForgetDirty);
        steps.push(FileStep::SaveList);
        steps.push(FileStep::TruncateOverlay);
        steps.push(FileStep::SyncOverlay);
        proof {
            assert(steps@ =~= reset_plan());
        }
        steps
    }

    /// The steps that make the overlay and its dirty list durable.
    pub fn flush(&self) -> (r: Vec<FileStep>)
        ensures
            r@ == seq![FileStep::SyncOverlay, FileStep::SaveList],
            r@ == flush_plan(),
    {
        let mut steps: Vec<FileStep> = Vec::new();
        steps.push(FileStep::SyncOverlay);
        steps.push(FileStep::SaveList);
        proof {
            assert(steps@ =~= seq![FileStep::SyncOverlay, FileStep::SaveList]);
        }
        steps
    }

    /// Forgets the dirty set, in memory.
    pub fn forget_dirty(&mut self)
        ensures
            final(self).wf(),
            final(self).dirty_set() == Set::<u64>::empty(),
            final(self).bytes() == old(self).bytes(),
            final(self).base_file() == old(self).base_file(),
            final(self).overlay_file() == old(self).overlay_file(),
    {
        self.dirty.clear();
    }

    /// The sidecar of the dirty set that is in memory.
    pub fn sidecar(&self) -> (r: Vec<u8>)
        ensures
            r@ == sidecar_bytes(self.dirty_set()),
    {
        save_dirty_list(&self.dirty)
    }

    /// Number of dirty sectors in the overlay.
    pub fn dirty_count(&self) -> (r: usize)
        ensures
            r == self.dirty_set().len(),
    {
        self.dirty.len()
    }

    /// The dirty sectors, ascending, as a snapshot records them.
    pub fn export_overlay(&self) -> (r: Vec<u64>)
        ensures
            r@ == crate::sorting::ascending_list(self.dirty_set()),
            crate::sorting::ascending(r@),
            r@.to_set() == self.dirty_set(),
    {
        list_of(&self.dirty)
    }

    /// Whether the overlay of a snapshot can be restored, and how. Nothing changes;
    /// [`CowDisk::adopt`] takes the list over once the overlay is in place.
    pub fn import_overlay(&self, source: &str, source_exists: bool, dirty: &Vec<u64>) -> (r: Result<
        ImportAction,
        DiskError,
    >)
        ensures
            match r {
                Ok(action) => {
                    &&& import_error(source@, source_exists, dirty@, self.sectors()) is None
                    &&& action == if source_exists {
                        ImportAction::CopySaved
                    } else {
                        ImportAction::CreateEmpty
                    }
                    &&& forall|i: int| 0 <= i < dirty.len() ==> dirty@[i] < self.sectors()
                },
                Err(e) => import_error(source@, source_exists, dirty@, self.sectors()) == Some(e@),
            },
    {
        let sectors: u64 = self.sector_count();
        let mut i: usize = 0;
        while i < dirty.len()
            invariant
                i <= dirty.len(),
                sectors == self.sectors(),
                first_past_end(dirty@, sectors, 0) == first_past_end(dirty@, sectors, i as int),
                forall|k: int| 0 <= k < i ==> dirty@[k] < sectors,
            decreases dirty.len() - i,
        {
            if dirty[i] >= sectors {
                let mut m = owned("snapshot overlay names sector ");
                push_decimal(&mut m, dirty[i]);
                m.append(" on a ");
                push_decimal(&mut m, sectors);
                m.append("-sector disk");
                return Err(invalid_data(m));
            }
            i = i + 1;
        }
        if source_exists {
            return Ok(ImportAction::CopySaved);
        }
        if dirty.len() > 0 {
            let mut m = owned(source);
            m.append(" is missing but its snapshot lists ");
            push_decimal(&mut m, dirty.len() as u64);
            m.append(
                " dirty sectors; restoring would point the disk at data that is not there",
            );
            return Err(not_found(m));
        }
        Ok(ImportAction::CreateEmpty)
    }

    /// Takes over the dirty list of a restored overlay.
    pub fn adopt(&mut self, dirty: &Vec<u64>)
        requires
            forall|i: int| 0 <= i < dirty.len() ==> dirty@[i] < old(self).sectors(),
        ensures
            final(self).wf(),
            final(self).dirty_set() == dirty@.to_set(),
            final(self).bytes() == old(self).bytes(),
            final(self).base_file() == old(self).base_file(),
            final(self).overlay_file() == old(self).overlay_file(),
    {
        self.dirty.clear();
        let mut i: usize = 0;
        proof {
            assert(dirty@.take(0).to_set() =~= Set::<u64>::empty());
        }
        while i < dirty.len()
            invariant
                i <= dirty.len(),
                self.dirty@ == dirty@.take(i as int).to_set(),
                self.base_size == old(self).base_size,
                self.base_path == old(self).base_path,
                self.overlay_path == old(self).overlay_path,
            decreases dirty.len() - i,
        {
            self.dirty.insert(dirty[i]);
            proof {
                lemma_take_set(dirty@, i as int);
            }
            i = i + 1;
        }
        proof {
            assert(dirty@.take(i as int) =~= dirty@);
        }
    }

    /// Path of the sidecar.
    pub fn sidecar_path(&self) -> (r: String)
        ensures
            r@ == self.overlay_file() + ".dirty"@,
    {
        dirty_sidecar_path(self.overlay_path.as_str())
    }

    /// The base image that a commit writes to: the configured one, whatever the
    /// overlay is called.
    pub fn commit_target(&self) -> (r: String)
        ensures
            r@ == self.base_file(),
    {
        self.base_path.clone()
    }

    /// Path of the overlay.
    pub fn overlay_name(&self) -> (r: String)
        ensures
            r@ == self.overlay_file(),
    {
        self.overlay_path.clone()
    }
}

proof fn lemma_take_set(q: Seq<u64>, i: int)
    requires
        0 <= i < q.len(),
    ensures
        q.take(i + 1).to_set() == q.take(i).to_set().insert(q[i]),
{
    let front = q.take(i);
    let next = q.take(i + 1);
    assert forall|x: u64| next.to_set().contains(x) <==> front.to_set().insert(q[i]).contains(
        x,
    ) by {
        if front.contains(x) {
            assert(next[front.index_of(x)] == x);
        }
        if x == q[i] {
            assert(next[i] == x);
        }
        if next.contains(x) {
            let k = next.index_of(x);
            if k < i {
                assert(front[k] == x);
            }
        }
    }
    assert(next.to_set() =~= front.to_set().insert(q[i]));
}

proof fn lemma_in_range(raw: Seq<u8>, max_sector: u64, from: int, i: int)
    requires
        0 <= from <= i < entries_in(raw.len() as int),
        first_foreign(raw, max_sector, from) is None,
    ensures
        entry(raw, i) < max_sector,
    decreases i - from,
{
    if from < i {
        lemma_in_range(raw, max_sector, from + 1, i);
    }
}

proof fn lemma_listed_in_range(raw: Seq<u8>, max_sector: u64)
    requires
        raw.len() >= 8,
        first_foreign(raw, max_sector, 0) is None,
    ensures
        forall|s: u64| #[trigger] listed(raw).contains(s) ==> s < max_sector,
{
    let all = Seq::new(entries_in(raw.len() as int) as nat, |k: int| entry(raw, k));
    assert forall|s: u64| #[trigger] listed(raw).contains(s) implies s < max_sector by {
        assert(all.contains(s));
        let i = all.index_of(s);
        lemma_in_range(raw, max_sector, 0, i);
    }
}

// ---------------------------------------------------------------------------
// Laws of commit and rollback
// ---------------------------------------------------------------------------

/// The files of a disk and the dirty set in memory.
pub struct Files {
    pub base: Seq<u8>,
    pub overlay: Seq<u8>,
    /// The dirty set in memory.
    pub dirty: Set<u64>,
    /// The dirty set in the sidecar: what the next start would read.
    pub listed: Set<u64>,
}

/// The files after one step.
pub open spec fn after_step(f: Files, step: FileStep) -> Files {
    match step {
        FileStep::CopySector(s) => Files {
            base: written(f.base, s * 512, f.overlay.subrange(s * 512, s * 512 + 512)),
            ..f
        },
        FileStep::ForgetDirty => Files { dirty: Set::empty(), ..f },
        FileStep::SaveList => Files { listed: f.dirty, ..f },
        FileStep::TruncateOverlay => Files { overlay: seq![], ..f },
        _ => f,
    }
}

/// The files after the steps.
pub open spec fn after_steps(f: Files, steps: Seq<FileStep>) -> Files
    decreases steps.len(),
{
    if steps.len() == 0 {
        f
    } else {
        after_step(after_steps(f, steps.drop_last()), steps.last())
    }
}

/// The base with the sectors of the list taken from the overlay.
pub open spec fn copied(base: Seq<u8>, overlay: Seq<u8>, q: Seq<u64>) -> Seq<u8> {
    merged(base, overlay, q.to_set())
}

/// The files belong to a disk: the dirty sectors lie on it and in the overlay, and
/// the sidecar names no sector that is not dirty.
pub open spec fn sound(f: Files) -> bool {
    &&& f.dirty.finite()
    &&& f.base.len() <= u64::MAX
    &&& covers(f.overlay, f.dirty)
    &&& f.listed.subset_of(f.dirty)
    &&& forall|s: u64| #[trigger] f.dirty.contains(s) ==> (s + 1) * 512 <= f.base.len()
}

proof fn lemma_copies(f: Files, q: Seq<u64>, k: int)
    requires
        sound(f),
        q.to_set() == f.dirty,
        0 <= k <= q.len(),
    ensures
        after_steps(f, q.map_values(|s: u64| FileStep::CopySector(s)).take(k)) == (Files {
            base: copied(f.base, f.overlay, q.take(k)),
            ..f
        }),
    decreases k,
{
    let copies = q.map_values(|s: u64| FileStep::CopySector(s));
    if k == 0 {
        assert(copies.take(0) =~= seq![]);
        assert(q.take(0).to_set() =~= Set::<u64>::empty());
        assert(copied(f.base, f.overlay, q.take(0)) =~= f.base);
    } else {
        lemma_copies(f, q, k - 1);
        assert(copies.take(k).drop_last() =~= copies.take(k - 1));
        assert(copies.take(k).last() == FileStep::CopySector(q[k - 1]));
        lemma_take_set(q, k - 1);
        let s = q[k - 1];
        assert(q.to_set().contains(s));
        assert(f.dirty.contains(s));
        let before = copied(f.base, f.overlay, q.take(k - 1));
        let after = copied(f.base, f.overlay, q.take(k));
        let w = written(before, s * 512, f.overlay.subrange(s * 512, s * 512 + 512));
        assert forall|i: int| 0 <= i < f.base.len() implies w[i] == after[i] by {
            let t = (i / 512) as u64;
            assert(t == i / 512);
            if s * 512 <= i < s * 512 + 512 {
                assert(t == s);
            } else {
                assert(t != s);
            }
        }
        assert(w =~= after);
    }
}

/// A commit can be cut short after any of its steps. What the next start reads is
/// readable, and every byte of it is what the sidecar said before the commit or
/// what the guest last saw. A commit that runs to its end leaves the base holding
/// what the guest saw, and nothing dirty.
pub proof fn law_commit_survives_interruption(f: Files, k: int)
    requires
        sound(f),
        0 <= k <= commit_plan(f.dirty).len(),
    ensures
        ({
            let g = after_steps(f, commit_plan(f.dirty).take(k));
            let restart = merged(g.base, g.overlay, g.listed);
            &&& covers(g.overlay, g.listed)
            &&& restart.len() == f.base.len()
            &&& forall|i: int|
                0 <= i < f.base.len() ==> #[trigger] restart[i] == merged(
                    f.base,
                    f.overlay,
                    f.listed,
                )[i] || restart[i] == merged(f.base, f.overlay, f.dirty)[i]
        }),
        ({
            let end = after_steps(f, commit_plan(f.dirty));
            &&& end.base == merged(f.base, f.overlay, f.dirty)
            &&& end.dirty == Set::<u64>::empty()
            &&& end.listed == Set::<u64>::empty()
            &&& merged(end.base, end.overlay, end.dirty) == merged(f.base, f.overlay, f.dirty)
        }),
{
    lemma_finite_sets_have_lists(f.dirty);
    let q = crate::sorting::ascending_list(f.dirty);
    let n = q.len() as int;
    let copies = q.map_values(|s: u64| FileStep::CopySector(s));
    let plan = commit_plan(f.dirty);
    assert(plan.take(n) =~= copies.take(n));
    lemma_copies(f, q, n);
    assert(q.take(n) =~= q);
    let full = merged(f.base, f.overlay, f.dirty);
    let f0 = after_steps(f, plan.take(n));
    assert(f0.base == full);
    lemma_prefix_step(f, plan, n);
    lemma_prefix_step(f, plan, n + 1);
    lemma_prefix_step(f, plan, n + 2);
    lemma_prefix_step(f, plan, n + 3);
    lemma_prefix_step(f, plan, n + 4);
    lemma_prefix_step(f, plan, n + 5);
    assert(plan.take(n + 6) =~= plan);
    let end = after_steps(f, plan);
    assert(merged(end.base, end.overlay, end.dirty) =~= full);
    let g = after_steps(f, plan.take(k));
    let restart = merged(g.base, g.overlay, g.listed);
    if k <= n {
        assert(plan.take(k) =~= copies.take(k));
        lemma_copies(f, q, k);
        assert forall|i: int| 0 <= i < f.base.len() implies #[trigger] restart[i] == merged(
            f.base,
            f.overlay,
            f.listed,
        )[i] || restart[i] == full[i] by {
            let s = (i / 512) as u64;
            if q.take(k).to_set().contains(s) {
                let m = q.take(k).index_of(s);
                assert(q[m] == s);
                assert(q.to_set().contains(s));
            }
        }
    } else {
        let empty = Set::<u64>::empty();
        assert(merged(full, f.overlay, empty) =~= full);
        assert(merged(full, seq![], empty) =~= full);
    }
}

proof fn lemma_prefix_step(f: Files, plan: Seq<FileStep>, k: int)
    requires
        0 <= k < plan.len(),
    ensures
        after_steps(f, plan.take(k + 1)) == after_step(after_steps(f, plan.take(k)), plan[k]),
{
    assert(plan.take(k + 1).drop_last() =~= plan.take(k));
    assert(plan.take(k + 1).last() == plan[k]);
}

/// A rollback can be cut short after any of its steps, and what the next start
/// reads is readable. One that runs to its end leaves the guest seeing the base,
/// which it did not touch.
pub proof fn law_rollback_restores_the_base(f: Files, k: int)
    requires
        sound(f),
        0 <= k <= reset_plan().len(),
    ensures
        ({
            let g = after_steps(f, reset_plan().take(k));
            &&& covers(g.overlay, g.listed)
            &&& g.base == f.base
        }),
        ({
            let end = after_steps(f, reset_plan());
            &&& end.dirty == Set::<u64>::empty()
            &&& end.listed == Set::<u64>::empty()
            &&& merged(end.base, end.overlay, end.dirty) == f.base
        }),
{
    let plan = reset_plan();
    assert(plan.take(0) =~= seq![]);
    lemma_prefix_step(f, plan, 0);
    lemma_prefix_step(f, plan, 1);
    lemma_prefix_step(f, plan, 2);
    lemma_prefix_step(f, plan, 3);
    assert(plan.take(4) =~= plan);
    let end = after_steps(f, plan);
    assert(merged(end.base, end.overlay, end.dirty) =~= f.base);
}

/// After a flush, a restart sees what the guest sees now.
pub proof fn law_flush_makes_writes_survive(f: Files)
    requires
        sound(f),
    ensures
        ({
            let g = after_steps(f, flush_plan());
            &&& g.listed == f.dirty
            &&& merged(g.base, g.overlay, g.listed) == merged(f.base, f.overlay, f.dirty)
        }),
        flush_plan().len() == 2,
        flush_plan()[0] == FileStep::SyncOverlay,
        flush_plan()[1] == FileStep::SaveList,
{
    let plan = flush_plan();
    assert(plan.take(0) =~= seq![]);
    lemma_prefix_step(f, plan, 0);
    lemma_prefix_step(f, plan, 1);
    assert(plan.take(2) =~= plan);
}

// ---------------------------------------------------------------------------
// Laws of ranges, lists and plans
// ---------------------------------------------------------------------------

/// A disk has the whole sectors of its base image; what is left behind the last is not
/// addressable.
pub proof fn law_whole_sectors(disk: CowDisk)
    ensures
        512 * disk.sectors() <= disk.bytes() < 512 * disk.sectors() + 512,
{
}

/// A range of sectors is accepted exactly if it ends on the disk, and a write exactly if it is
/// whole sectors that do. An empty one is accepted up to the very end of the disk.
pub proof fn law_which_ranges_are_on_the_disk(lba: u64, count: u64, len: usize, sectors: u64)
    ensures
        range_error(lba, count, sectors) is None <==> lba + count <= sectors,
        write_error(lba, len, sectors) is None <==> len % 512 == 0 && 512 * lba + len <= 512
            * sectors,
        range_error(lba, count, sectors) matches Some(e) ==> e.0 == DiskErrorKind::InvalidInput,
        write_error(lba, len, sectors) matches Some(e) ==> e.0 == DiskErrorKind::InvalidInput,
{
}

/// A range of sectors has its first sector, as many as it counts, and no other; what was
/// marked stays marked.
pub proof fn law_marked_ranges(dirty: Set<u64>, lba: int, count: int, s: u64)
    ensures
        sector_range(lba, count).contains(s) <==> lba <= s && s < lba + count,
        dirty.union(sector_range(lba, count)).contains(s) <==> dirty.contains(s) || (lba <= s && s
            < lba + count),
{
}

/// What a write to a file leaves: the bytes of the write where it went, every other byte that
/// was there, and zeros between the old end and a write behind it.
pub proof fn law_what_a_write_leaves(file: Seq<u8>, at: int, data: Seq<u8>, i: int)
    requires
        0 <= at,
        0 <= i,
    ensures
        written(file, at, data).len() >= file.len(),
        written(file, at, data).len() >= at + data.len(),
        written(file, at, data).len() == file.len() || written(file, at, data).len() == at
            + data.len(),
        i < data.len() ==> written(file, at, data)[at + i] == data[i],
        i < file.len() && (i < at || i >= at + data.len()) ==> written(file, at, data)[i]
            == file[i],
        file.len() <= i < at && data.len() > 0 ==> written(file, at, data)[i] == 0,
{
}

/// Where the guest's bytes come from: those of dirty sectors from the overlay, all others from
/// the base.
pub proof fn law_where_bytes_come_from(
    base: Seq<u8>,
    overlay: Seq<u8>,
    dirty: Set<u64>,
    sector: u64,
    within: int,
)
    requires
        0 <= within < 512,
        512 * sector + within < base.len(),
    ensures
        merged(base, overlay, dirty).len() == base.len(),
        dirty.contains(sector) ==> merged(base, overlay, dirty)[512 * sector + within]
            == overlay[512 * sector + within],
        !dirty.contains(sector) ==> merged(base, overlay, dirty)[512 * sector + within]
            == base[512 * sector + within],
{
    assert((512 * sector + within) / 512 == sector);
}

/// The runs of a read, one by one: they start at the first sector and end behind the last,
/// each begins where the one before it ended, and a run comes from the overlay exactly if its
/// sectors are dirty. Neighbours come from different files.
pub proof fn law_runs_follow_the_dirty_list(
    runs: Seq<ReadRun>,
    lba: int,
    end: int,
    dirty: Set<u64>,
)
    requires
        tiles(runs, lba, end, dirty),
    ensures
        runs.len() == 0 <==> lba == end,
        runs.len() > 0 ==> runs[0].sector == lba && runs.last().sector + runs.last().sectors == end,
        forall|i: int| 0 <= i < runs.len() ==> (#[trigger] runs[i]).sectors > 0,
        forall|i: int, s: u64|
            0 <= i < runs.len() && (#[trigger] runs[i]).sector <= s < runs[i].sector
                + runs[i].sectors ==> (#[trigger] dirty.contains(s) <==> runs[i].from_overlay),
        forall|i: int|
            0 < i < runs.len() ==> (#[trigger] runs[i]).sector == runs[i - 1].sector + runs[i
                - 1].sectors && runs[i].from_overlay != runs[i - 1].from_overlay,
        lba <= end,
    decreases runs.len(),
{
    if runs.len() > 0 {
        let front = runs.drop_last();
        let run = runs.last();
        law_runs_follow_the_dirty_list(front, lba, run.sector as int, dirty);
        assert forall|i: int| 0 <= i < runs.len() implies (#[trigger] runs[i]).sectors > 0 by {
            if i < front.len() {
                assert(front[i] == runs[i]);
            }
        }
        assert forall|i: int, s: u64|
            0 <= i < runs.len() && (#[trigger] runs[i]).sector <= s < runs[i].sector
                + runs[i].sectors implies (#[trigger] dirty.contains(s) <==> runs[i].from_overlay) by {
            if i < front.len() {
                assert(front[i] == runs[i]);
            }
        }
        assert forall|i: int| 0 < i < runs.len() implies (#[trigger] runs[i]).sector == runs[i
            - 1].sector + runs[i - 1].sectors && runs[i].from_overlay != runs[i - 1].from_overlay by {
            assert(front[i - 1] == runs[i - 1]);
            if i < front.len() {
                assert(front[i] == runs[i]);
            } else {
                assert(front.last() == runs[i - 1]);
            }
        }
        if front.len() > 0 {
            assert(front[0] == runs[0]);
        }
    }
}

/// Where a list holds what: its entries stand from byte 8 on, eight bytes each, least
/// significant first. A list is accepted exactly if it has room for its count, the first eight
/// bytes count the entries that it holds, and every entry is below the number of sectors; a
/// sector is listed exactly if it is an entry.
pub proof fn law_dirty_lists(path: Seq<char>, raw: Seq<u8>, max_sector: u64)
    ensures
        list_error(path, raw, max_sector) is None <==> {
            &&& raw.len() >= 8
            &&& raw[0] + 0x100 * raw[1] + 0x1_0000 * raw[2] + 0x100_0000 * raw[3] + 0x1_0000_0000
                * raw[4] + 0x100_0000_0000 * raw[5] + 0x1_0000_0000_0000 * raw[6]
                + 0x100_0000_0000_0000 * raw[7] == (raw.len() - 8) / 8
            &&& forall|i: int| 0 <= i < (raw.len() - 8) / 8 ==> #[trigger] entry(raw, i) < max_sector
        },
        forall|i: int|
            #![trigger entry(raw, i)]
            0 <= i && 16 + 8 * i <= raw.len() ==> {
                let at = 8 + 8 * i;
                entry(raw, i) == raw[at] + 0x100 * raw[at + 1] + 0x1_0000 * raw[at + 2]
                    + 0x100_0000 * raw[at + 3] + 0x1_0000_0000 * raw[at + 4] + 0x100_0000_0000
                    * raw[at + 5] + 0x1_0000_0000_0000 * raw[at + 6] + 0x100_0000_0000_0000 * raw[at
                    + 7]
            },
        raw.len() >= 8 ==> forall|sector: u64| #[trigger]
            listed(raw).contains(sector) <==> exists|i: int|
                0 <= i < (raw.len() - 8) / 8 && #[trigger] entry(raw, i) == sector,
{
    if raw.len() >= 8 {
        crate::bytes::law_eight_bytes(raw.take(8));
        lemma_first_foreign(raw, max_sector, 0);
        let all = Seq::new(entries_in(raw.len() as int) as nat, |k: int| entry(raw, k));
        assert forall|sector: u64| #[trigger] listed(raw).contains(sector) <==> exists|i: int|
            0 <= i < (raw.len() - 8) / 8 && #[trigger] entry(raw, i) == sector by {
            if listed(raw).contains(sector) {
                assert(all.contains(sector));
                let k = all.index_of(sector);
                assert(entry(raw, k) == sector);
            }
            if exists|i: int| 0 <= i < (raw.len() - 8) / 8 && #[trigger] entry(raw, i) == sector {
                let k = choose|i: int|
                    0 <= i < (raw.len() - 8) / 8 && #[trigger] entry(raw, i) == sector;
                assert(all[k] == sector);
            }
        }
    }
    assert forall|i: int|
        #![trigger entry(raw, i)]
        0 <= i && 16 + 8 * i <= raw.len() implies ({
        let at = 8 + 8 * i;
        entry(raw, i) == raw[at] + 0x100 * raw[at + 1] + 0x1_0000 * raw[at + 2] + 0x100_0000
            * raw[at + 3] + 0x1_0000_0000 * raw[at + 4] + 0x100_0000_0000 * raw[at + 5]
            + 0x1_0000_0000_0000 * raw[at + 6] + 0x100_0000_0000_0000 * raw[at + 7]
    }) by {
        crate::bytes::law_eight_bytes(raw.subrange(8 + 8 * i, 16 + 8 * i));
        crate::bytes::lemma_le_bounds();
        crate::bytes::lemma_le_value_bound(raw.subrange(8 + 8 * i, 16 + 8 * i));
    }
}

proof fn lemma_first_foreign(raw: Seq<u8>, max_sector: u64, from: int)
    requires
        0 <= from,
    ensures
        first_foreign(raw, max_sector, from) is None <==> forall|i: int|
            from <= i < (raw.len() - 8) / 8 ==> #[trigger] entry(raw, i) < max_sector,
    decreases entries_in(raw.len() as int) - from,
{
    if from < entries_in(raw.len() as int) {
        lemma_first_foreign(raw, max_sector, from + 1);
        if first_foreign(raw, max_sector, from) is None {
            assert forall|i: int| from <= i < (raw.len() - 8) / 8 implies #[trigger] entry(raw, i)
                < max_sector by {}
        }
    }
}

/// The sidecar of a dirty set: the count of its sectors and then each of them once, in
/// ascending order, eight bytes each.
pub proof fn law_sidecar_layout(dirty: Set<u64>)
    requires
        dirty.finite(),
        dirty.len() < 0x1000_0000_0000_0000,
    ensures
        ({
            let raw = sidecar_bytes(dirty);
            &&& raw.len() == 8 + 8 * dirty.len()
            &&& crate::bytes::le_value(raw.take(8)) == dirty.len()
            &&& forall|i: int| 0 <= i < dirty.len() ==> dirty.contains(#[trigger] entry(raw, i))
            &&& forall|i: int, j: int|
                0 <= i < j < dirty.len() ==> #[trigger] entry(raw, i) < #[trigger] entry(raw, j)
        }),
{
    lemma_finite_sets_have_lists(dirty);
    let q = crate::sorting::ascending_list(dirty);
    let raw = sidecar_bytes(dirty);
    crate::bytes::lemma_le_len(q.len(), 8);
    crate::bytes::lemma_le_bounds();
    q.unique_seq_to_set();
    crate::bytes::lemma_le_round_trip(q.len(), 8);
    if q.len() > 0 {
        lemma_list_bytes(q, 0);
    }
    assert(raw.take(8) =~= crate::bytes::le_bytes(q.len(), 8));
    assert forall|i: int| 0 <= i < q.len() implies #[trigger] entry(raw, i) == q[i] by {
        lemma_list_bytes(q, i);
        assert(raw.subrange(8 + 8 * i, 16 + 8 * i) =~= list_bytes(q).subrange(8 * i, 8 * i + 8));
        crate::bytes::lemma_le_round_trip(q[i] as nat, 8);
    }
    assert forall|i: int| 0 <= i < dirty.len() implies dirty.contains(#[trigger] entry(raw, i)) by {
        assert(q.to_set().contains(q[i]));
    }
}

/// Which snapshots can be restored: every sector that is listed lies on the disk, and the
/// saved overlay is there unless nothing is listed. A missing overlay is reported as such, a
/// sector beyond the disk as bad data.
pub proof fn law_which_snapshots_can_be_restored(
    source: Seq<char>,
    source_exists: bool,
    dirty: Seq<u64>,
    sectors: u64,
)
    ensures
        ({
            let fits = forall|i: int| 0 <= i < dirty.len() ==> #[trigger] dirty[i] < sectors;
            let e = import_error(source, source_exists, dirty, sectors);
            &&& e is None <==> fits && (source_exists || dirty.len() == 0)
            &&& !fits ==> (e->0).0 == DiskErrorKind::InvalidData
            &&& fits && !source_exists && dirty.len() > 0 ==> (e->0).0 == DiskErrorKind::NotFound
        }),
{
    lemma_first_past_end(dirty, sectors, 0);
}

proof fn lemma_first_past_end(dirty: Seq<u64>, sectors: u64, from: int)
    requires
        0 <= from,
    ensures
        first_past_end(dirty, sectors, from) is None <==> forall|i: int|
            from <= i < dirty.len() ==> #[trigger] dirty[i] < sectors,
    decreases dirty.len() - from,
{
    if from < dirty.len() {
        lemma_first_past_end(dirty, sectors, from + 1);
        if first_past_end(dirty, sectors, from) is None {
            assert forall|i: int| from <= i < dirty.len() implies #[trigger] dirty[i]
                < sectors by {}
        }
    }
}

/// The order of a commit: first every dirty sector is copied, each once and in ascending
/// order; then the base is made durable; only then is the dirty set forgotten, and its empty
/// list saved before the overlay is emptied and made durable. At the end the base is reopened.
/// A rollback takes the same steps from the forgetting on, and touches no base.
pub proof fn law_order_of_commit_and_rollback(dirty: Set<u64>)
    requires
        dirty.finite(),
    ensures
        ({
            let plan = commit_plan(dirty);
            let n = dirty.len() as int;
            &&& plan.len() == n + 6
            &&& forall|i: int|
                0 <= i < n ==> (#[trigger] plan[i] matches FileStep::CopySector(s)
                    && dirty.contains(s))
            &&& forall|i: int, j: int|
                0 <= i < j < n ==> (#[trigger] plan[i])->CopySector_0 < (
                #[trigger] plan[j])->CopySector_0
            &&& plan[n] == FileStep::SyncBase
            &&& plan[n + 1] == FileStep::ForgetDirty
            &&& plan[n + 2] == FileStep::SaveList
            &&& plan[n + 3] == FileStep::TruncateOverlay
            &&& plan[n + 4] == FileStep::SyncOverlay
            &&& plan[n + 5] == FileStep::ReopenBase
            &&& reset_plan() == plan.subrange(n + 1, n + 5)
        }),
{
    lemma_finite_sets_have_lists(dirty);
    let q = crate::sorting::ascending_list(dirty);
    q.unique_seq_to_set();
    let plan = commit_plan(dirty);
    let n = dirty.len() as int;
    assert forall|i: int| 0 <= i < n implies (#[trigger] plan[i] matches FileStep::CopySector(s)
        && dirty.contains(s)) by {
        assert(plan[i] == FileStep::CopySector(q[i]));
        assert(q.to_set().contains(q[i]));
    }
    assert forall|i: int, j: int| 0 <= i < j < n implies (#[trigger] plan[i])->CopySector_0 < (
    #[trigger] plan[j])->CopySector_0 by {
        assert(plan[i] == FileStep::CopySector(q[i]));
        assert(plan[j] == FileStep::CopySector(q[j]));
    }
    assert(reset_plan() =~= plan.subrange(n + 1, n + 5));
}

/// What is said of a list or a snapshot that names a sector which the disk does not have: the
/// first such sector, and how many the disk has.
pub proof fn law_the_first_foreign_sector_is_named(
    path: Seq<char>,
    raw: Seq<u8>,
    source: Seq<char>,
    exists: bool,
    dirty: Seq<u64>,
    sectors: u64,
    i: int,
)
    ensures
        raw.len() >= 8 && crate::bytes::le_value(raw.take(8)) == (raw.len() - 8) / 8 && 0 <= i < (
        raw.len() - 8) / 8 && entry(raw, i) >= sectors && (forall|k: int|
            0 <= k < i ==> #[trigger] entry(raw, k) < sectors) ==> list_error(path, raw, sectors)
            == Some(
            (
                DiskErrorKind::InvalidData,
                path + ": dirty list names sector "@ + crate::text::decimal(
                    entry(raw, i) as nat,
                ) + " on a "@ + crate::text::decimal(sectors as nat) + "-sector disk"@,
            ),
        ),
        0 <= i < dirty.len() && dirty[i] >= sectors && (forall|k: int|
            0 <= k < i ==> #[trigger] dirty[k] < sectors) ==> import_error(
            source,
            exists,
            dirty,
            sectors,
        ) == Some(
            (
                DiskErrorKind::InvalidData,
                "snapshot overlay names sector "@ + crate::text::decimal(dirty[i] as nat)
                    + " on a "@ + crate::text::decimal(sectors as nat) + "-sector disk"@,
            ),
        ),
{
    if raw.len() >= 8 && 0 <= i < (raw.len() - 8) / 8 && entry(raw, i) >= sectors && (forall|
        k: int,
    |
        0 <= k < i ==> #[trigger] entry(raw, k) < sectors) {
        lemma_foreign_at(raw, sectors, 0, i);
    }
    if 0 <= i < dirty.len() && dirty[i] >= sectors && (forall|k: int|
        0 <= k < i ==> #[trigger] dirty[k] < sectors) {
        lemma_past_end_at(dirty, sectors, 0, i);
    }
}

proof fn lemma_foreign_at(raw: Seq<u8>, max_sector: u64, from: int, i: int)
    requires
        0 <= from <= i < (raw.len() - 8) / 8,
        entry(raw, i) >= max_sector,
        forall|k: int| from <= k < i ==> #[trigger] entry(raw, k) < max_sector,
    ensures
        first_foreign(raw, max_sector, from) == Some(i),
    decreases i - from,
{
    if from < i {
        lemma_foreign_at(raw, max_sector, from + 1, i);
    }
}

proof fn lemma_past_end_at(dirty: Seq<u64>, sectors: u64, from: int, i: int)
    requires
        0 <= from <= i < dirty.len(),
        dirty[i] >= sectors,
        forall|k: int| from <= k < i ==> #[trigger] dirty[k] < sectors,
    ensures
        first_past_end(dirty, sectors, from) == Some(i),
    decreases i - from,
{
    if from < i {
        lemma_past_end_at(dirty, sectors, from + 1, i);
    }
}

} // verus!
