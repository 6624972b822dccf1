use std::collections::BTreeMap;

use iris::chd_commit::check_flatten;
use iris::chd_commit::clear_marker;
use iris::chd_commit::commit_sparse_overlay;
use iris::chd_commit::committed_units;
use iris::chd_commit::create_overlay;
use iris::chd_commit::discard_overlay;
use iris::chd_commit::finish_commit;
use iris::chd_commit::flatten_diff;
use iris::chd_commit::rebuild_options;
use iris::chd_commit::BaseStructure;
use iris::chd_commit::ChdStep;
use iris::chd_commit::HdGeometry;
use iris::chd_commit::PlannedStep;
use iris::chd_disk::apply_marker_path;
use iris::chd_disk::classify_overlay;
use iris::chd_disk::commit_overlay;
use iris::chd_disk::creating_path;
use iris::chd_disk::diff_path_for;
use iris::chd_disk::discard_unusable_diff;
use iris::chd_disk::file_name;
use iris::chd_disk::file_stem;
use iris::chd_disk::is_chd;
use iris::chd_disk::is_chd_on;
use iris::chd_disk::marker_text;
use iris::chd_disk::open_action;
use iris::chd_disk::resume_interrupted_commit;
use iris::chd_disk::temp_sync_path_for;
use iris::chd_disk::unsupported_record;
use iris::chd_disk::CheckedReader;
use iris::chd_disk::ChdCd;
use iris::chd_disk::ChdHd;
use iris::chd_disk::CommitAction;
use iris::chd_disk::DiffDir;
use iris::chd_disk::ExistingOverlay;
use iris::chd_disk::MergedReader;
use iris::chd_disk::OpenAction;
use iris::chd_disk::ReadStep;
use iris::chd_disk::ResumeAction;
use iris::chd_overlay::base_identity;
use iris::chd_overlay::check_apply;
use iris::chd_overlay::check_attach;
use iris::chd_overlay::fresh_header;
use iris::chd_overlay::BaseIdentity;
use iris::chd_overlay::ChdGeometry;
use iris::chd_overlay::OverlayFile;
use iris::chd_overlay::OverlayHeader;
use iris::chd_overlay::BITMAP_OFFSET;
use iris::disk_error::DiskError;
use iris::disk_error::DiskErrorKind;
use iris::sparse_overlay::SparseOverlay;

const HUNK: usize = 4096;
const PARENT: [u8; 20] = [7; 20];

/// The files of one disk, in memory. A stored hunk of only zeros is dropped, as the
/// format does.
#[derive(Clone)]
struct Files {
    base: Vec<u8>,
    compressed: bool,
    identity: BaseIdentity,
    hunks: Option<BTreeMap<u32, Vec<u8>>>,
    record: Option<Vec<u8>>,
    parent_sha1: [u8; 20],
    marker: bool,
}

struct Hd {
    files: Files,
    hd: ChdHd,
    sparse: Option<SparseOverlay>,
}

fn make_base(logical: usize, fill: u8, compressed: bool) -> Files {
    Files {
        base: vec![fill; logical],
        compressed,
        identity: BaseIdentity { len: logical as u64, mtime_secs: 1_789_000_000, mtime_nanos: 5 },
        hunks: None,
        record: None,
        parent_sha1: [0; 20],
        marker: false,
    }
}

impl Files {
    fn geometry(&self) -> ChdGeometry {
        ChdGeometry {
            logical_bytes: self.base.len() as u64,
            hunk_bytes: HUNK as u32,
            unit_bytes: 512,
            hunk_count: (self.base.len() / HUNK) as u32,
            compressed: self.compressed,
        }
    }

    fn map(&self) -> Vec<u32> {
        let stored = self.hunks.as_ref().unwrap();
        (0..self.geometry().hunk_count)
            .map(|h| if stored.contains_key(&h) { HUNK as u32 } else { 0 })
            .collect()
    }

    fn store(&mut self, hunk: u32, data: Vec<u8>) {
        let stored = self.hunks.as_mut().unwrap();
        if data.iter().all(|b| *b == 0) {
            stored.remove(&hunk);
        } else {
            stored.insert(hunk, data);
        }
    }

    fn hunk(&self, hunk: u32) -> Vec<u8> {
        match self.hunks.as_ref().unwrap().get(&hunk) {
            Some(data) => data.clone(),
            None => vec![0; HUNK],
        }
    }

    fn overlay_file(&self) -> Result<OverlayFile, DiskError> {
        let header = OverlayHeader::decode(self.record.as_ref().unwrap())?;
        let g = self.geometry();
        OverlayFile::open("disk.chd.diff.chd", header, g.hunk_bytes, g.hunk_count)
    }

    fn run(&mut self, steps: &[PlannedStep]) {
        for planned in steps {
            match planned.step {
                ChdStep::WriteMarker => self.marker = true,
                ChdStep::RemoveMarker => self.marker = false,
                ChdStep::ApplyHunks => {
                    let owned = self.overlay_file().unwrap().owned_hunks(&self.map()).unwrap();
                    for h in owned {
                        let data = self.hunk(h);
                        let at = h as usize * HUNK;
                        self.base[at..at + HUNK].copy_from_slice(&data);
                    }
                }
                ChdStep::RemoveOverlay => {
                    self.hunks = None;
                    self.record = None;
                }
                _ => {}
            }
        }
    }
}

fn open_hd(mut files: Files, cow: bool) -> Result<Hd, DiskError> {
    let kind = |f: &Files| {
        f.hunks.as_ref().map(|_| classify_overlay(f.record.is_some(), &f.parent_sha1))
    };
    match resume_interrupted_commit(files.marker, files.hunks.is_some(), kind(&files)) {
        ResumeAction::Nothing => {}
        ResumeAction::FinishCommit => files.run(&finish_commit()),
        ResumeAction::ClearMarker | ResumeAction::ClearStaleMarker => files.marker = false,
    }
    let existing = kind(&files);
    let (discard, action) = open_action("disk.chd", true, files.compressed, existing, cow)?;
    if discard {
        discard_unusable_diff("disk.chd.diff.chd", &files.map())?;
        files.hunks = None;
    }
    let g = files.geometry();
    match action {
        OpenAction::AttachSparse => {
            let header = OverlayHeader::decode(files.record.as_ref().unwrap())?;
            check_attach(&header, g, files.identity, "disk.chd", "disk.chd.diff.chd")?;
        }
        OpenAction::CreateSparse => {
            files.record = Some(fresh_header(g, files.identity)?.encode());
            files.hunks = Some(BTreeMap::new());
            files.parent_sha1 = [0; 20];
        }
        OpenAction::CreateParented => {
            files.hunks = Some(BTreeMap::new());
            files.parent_sha1 = PARENT;
        }
        OpenAction::ReopenParented | OpenAction::WriteInPlace => {}
    }
    let hd = ChdHd::open(action, "disk.chd", "disk.chd.diff.chd", 512, g.logical_bytes, cow)?;
    let sparse = if hd.is_sparse_overlay() {
        Some(SparseOverlay::new(files.overlay_file()?, g))
    } else {
        None
    };
    Ok(Hd { files, hd, sparse })
}

impl Hd {
    fn read(&self, lba: u64, count: usize) -> Result<Vec<u8>, DiskError> {
        let (offset, len) = self.hd.read_blocks(lba, count, 512)?;
        let (offset, len) = (offset as usize, len);
        let base = &self.files.base;
        let Some(sparse) = &self.sparse else {
            let mut out = base[offset..offset + len].to_vec();
            if let Some(stored) = &self.files.hunks {
                for (i, byte) in out.iter_mut().enumerate() {
                    let at = offset + i;
                    if let Some(h) = stored.get(&((at / HUNK) as u32)) {
                        *byte = h[at % HUNK];
                    }
                }
            }
            return Ok(out);
        };
        let mut out = vec![0; len];
        let map = self.files.map();
        for p in sparse.read_at(offset as u64, len)? {
            let at = p.hunk as usize * HUNK;
            let content = if sparse.reads_overlay(p.hunk, map[p.hunk as usize])? {
                self.files.hunk(p.hunk)
            } else {
                base[at..at + HUNK].to_vec()
            };
            out[p.done..p.done + p.len].copy_from_slice(&content[p.within..p.within + p.len]);
        }
        Ok(out)
    }

    fn write(&mut self, lba: u64, data: &[u8]) -> Result<(), DiskError> {
        let offset = self.hd.write_sectors(lba, data.len())?;
        let Some(sparse) = &mut self.sparse else {
            if self.files.hunks.is_none() {
                let at = offset as usize;
                self.files.base[at..at + data.len()].copy_from_slice(data);
                return Ok(());
            }
            for (i, byte) in data.iter().enumerate() {
                let at = offset as usize + i;
                let start = at / HUNK * HUNK;
                let base = self.files.base[start..start + HUNK].to_vec();
                let stored = self.files.hunks.as_mut().unwrap();
                stored.entry((at / HUNK) as u32).or_insert(base)[at % HUNK] = *byte;
            }
            return Ok(());
        };
        for p in sparse.write_at(offset, data.len())? {
            let at = p.hunk as usize * HUNK;
            let compbytes = self.files.map()[p.hunk as usize];
            let mut content = if sparse.reads_overlay(p.hunk, compbytes)? {
                self.files.hunk(p.hunk)
            } else {
                self.files.base[at..at + HUNK].to_vec()
            };
            if let Some(raw) = sparse.patch(p, data, &mut content) {
                self.files.record = Some(raw);
                sparse.record_saved();
            }
            self.files.store(p.hunk, content);
        }
        Ok(())
    }

    fn close(self) -> Files {
        let mut files = self.files;
        if let Some(sparse) = &self.sparse {
            if let Some(raw) = sparse.persist_pending() {
                files.record = Some(raw);
            }
        }
        files
    }
}

#[test]
fn sparse_overlay_on_uncompressed_base() {
    let files = make_base(4 * 1024 * 1024, 0xAA, false);
    let base_before = files.base.clone();
    let mut hd = open_hd(files, true).unwrap();
    assert!(hd.hd.is_cow() && hd.hd.is_sparse_overlay());
    assert_eq!(hd.hd.size(), 4 * 1024 * 1024);
    assert_eq!(hd.read(3, 1).unwrap(), vec![0xAA; 512]);

    hd.write(3, &[0x5A; 512]).unwrap();
    assert_eq!(hd.read(3, 1).unwrap(), vec![0x5A; 512]);
    assert_eq!(hd.read(2, 1).unwrap(), vec![0xAA; 512], "neighbour intact");
    assert_eq!(hd.read(4, 1).unwrap(), vec![0xAA; 512], "neighbour intact");
    hd.write(6, &[0x77; 512 * 4]).unwrap();
    assert_eq!(hd.read(6, 4).unwrap(), vec![0x77; 512 * 4]);
    assert!(hd.hd.diff_dirty());
    assert!(hd.hd.pending_sync().is_none(), "COW never auto-folds");
    let files = hd.close();

    assert_eq!(files.base, base_before, "base untouched by COW writes");
    assert_eq!(files.hunks.as_ref().unwrap().len(), 2, "overlay stays sparse");

    let hd2 = open_hd(files, true).unwrap();
    assert_eq!(hd2.read(3, 1).unwrap(), vec![0x5A; 512]);
    assert_eq!(hd2.read(6, 4).unwrap(), vec![0x77; 512 * 4]);
    assert_eq!(hd2.read(0, 1).unwrap(), vec![0xAA; 512]);
    assert_eq!(hd2.sparse.as_ref().unwrap().owned_hunk_count(&hd2.files.map()).unwrap(), 2);
}

#[test]
fn zeroing_a_hunk_does_not_fall_through_to_the_base() {
    let mut hd = open_hd(make_base(1024 * 1024, 0xAA, false), true).unwrap();
    hd.write(8, &[0x00; 4096]).unwrap();
    assert_eq!(hd.read(8, 8).unwrap(), vec![0x00; 4096], "zeros in-session");
    let hd2 = open_hd(hd.close(), true).unwrap();
    assert_eq!(
        hd2.read(8, 8).unwrap(),
        vec![0x00; 4096],
        "a zeroed hunk must stay zeroed across a reopen, not revert to the base"
    );
    assert_eq!(hd2.read(16, 1).unwrap(), vec![0xAA; 512], "untouched hunk");
}

#[test]
fn sparse_overlay_commit_writes_through_to_the_base() {
    let mut hd = open_hd(make_base(1024 * 1024, 0xAA, false), true).unwrap();
    hd.write(5, &[0x5A; 512]).unwrap();
    hd.write(8, &[0x00; 4096]).unwrap();
    assert!(hd.hd.overlay_paths().is_some());
    let mut files = hd.close();

    let applied = files.overlay_file().unwrap().owned_hunks(&files.map()).unwrap().len();
    let units = committed_units(commit_overlay(ExistingOverlay::Sparse), applied);
    assert!(units >= 2, "both touched hunks folded in, got {units}");
    files.run(&commit_sparse_overlay());
    assert!(files.hunks.is_none(), "overlay removed after commit");
    assert!(!files.marker, "marker cleared");

    let plain = open_hd(files, false).unwrap();
    assert!(!plain.hd.is_sparse_overlay() && plain.hd.overlay_paths().is_none());
    assert_eq!(plain.read(5, 1).unwrap(), vec![0x5A; 512]);
    assert_eq!(plain.read(8, 8).unwrap(), vec![0x00; 4096]);
    assert_eq!(plain.read(0, 1).unwrap(), vec![0xAA; 512]);
}

#[test]
fn interrupted_commit_is_resumed_on_open() {
    let mut hd = open_hd(make_base(1024 * 1024, 0xAA, false), true).unwrap();
    hd.write(5, &[0x5A; 512]).unwrap();
    let mut files = hd.close();
    files.marker = true;

    let hd2 = open_hd(files, false).unwrap();
    assert!(hd2.files.hunks.is_none(), "the resumed commit consumed the overlay");
    assert!(!hd2.files.marker, "marker cleared");
    assert_eq!(
        hd2.read(5, 1).unwrap(),
        vec![0x5A; 512],
        "the interrupted commit's write landed in the base"
    );
}

#[test]
fn a_commit_survives_an_interruption_at_every_step() {
    let build = || {
        let mut hd = open_hd(make_base(64 * 1024, 0xAA, false), true).unwrap();
        hd.write(5, &[0x5A; 512]).unwrap();
        hd.write(8, &[0x00; 4096]).unwrap();
        hd
    };
    let want = build().read(0, 128).unwrap();
    let steps = commit_sparse_overlay();
    for n in 0..=steps.len() {
        let mut files = build().close();
        files.run(&steps[..n]);
        assert_eq!(open_hd(files, true).unwrap().read(0, 128).unwrap(), want, "step {n}");
    }
}

#[test]
fn changed_base_is_refused() {
    let mut hd = open_hd(make_base(1024 * 1024, 0xAA, false), true).unwrap();
    hd.write(5, &[0x5A; 512]).unwrap();
    let mut files = hd.close();
    files.identity.len += 8;
    let Err(e) = open_hd(files, true) else {
        panic!("a base that moved under its overlay must be refused");
    };
    assert!(
        e.message.contains("changed since its COW overlay"),
        "unexpected error: {}",
        e.message
    );
}

#[test]
fn out_of_range_writes_are_refused_whole() {
    let mut hd = open_hd(make_base(1024 * 1024, 0xAA, false), true).unwrap();
    assert!(hd.write(2048, &[0x5A; 512]).is_err(), "first sector past the end");
    assert!(hd.write(2047, &[0x5A; 1024]).is_err());
    assert_eq!(
        hd.read(2047, 1).unwrap(),
        vec![0xAA; 512],
        "the in-range half of a rejected write must not have landed"
    );
    assert!(hd.read(2048, 1).is_err(), "reads are bounded too");
    assert!(!hd.hd.diff_dirty() && !hd.hd.flush());
    assert!(hd.write(u64::MAX, &[0; 512]).is_err());
}

#[test]
fn unusable_legacy_diff_does_not_brick_the_disk() {
    let mut files = make_base(1024 * 1024, 0xAA, false);
    files.hunks = Some(BTreeMap::new());
    let hd = open_hd(files.clone(), false).expect("disk still opens");
    assert_eq!(hd.read(0, 1).unwrap(), vec![0xAA; 512]);
    assert!(hd.files.hunks.is_none());
    files.store(3, vec![1; HUNK]);
    let Err(e) = open_hd(files, false) else {
        panic!("a diff that holds data is kept");
    };
    assert_eq!(e.kind, DiskErrorKind::InvalidData);
    assert!(e.message.contains("holds written hunks"));
}

/// The merged content, through the stream that feeds a rebuild.
fn stream(hd: &Hd, want: usize, fail_at: Option<u64>) -> (Vec<u8>, CheckedReader) {
    let sectors = hd.hd.size() / 512;
    let mut reader = MergedReader::new(512, sectors);
    let mut check = CheckedReader::new(hd.hd.size());
    let mut buffer = vec![];
    let mut out = vec![];
    loop {
        match reader.read(want) {
            ReadStep::End => return (out, check),
            ReadStep::Fetch(lba) => {
                if Some(lba) == fail_at {
                    check.on_error();
                    return (out, check);
                }
                assert_eq!(reader.read(want), ReadStep::Fetch(lba), "asked for until it is there");
                buffer = hd.read(lba, 1).unwrap();
                reader.fetched();
            }
            ReadStep::Copy { from, len } => {
                out.extend_from_slice(&buffer[from..from + len]);
                check.on_bytes(len as u64);
            }
        }
    }
}

#[test]
fn flatten_folds_diff_into_compressed_base() {
    let mut hd = open_hd(make_base(256 * 1024, 0xAB, true), false).unwrap();
    assert!(hd.hd.pending_sync().is_none(), "fresh diff, nothing written → not pending");
    hd.write(2, &[0x5A; 512]).unwrap();
    let (b, d) = hd.hd.pending_sync().expect("a write makes it pending");
    assert_eq!((b.as_str(), d.as_str()), ("disk.chd", "disk.chd.diff.chd"));

    let (merged, check) = stream(&hd, 300, None);
    assert!(check.may_install());
    let steps: Vec<ChdStep> = flatten_diff(true, check.may_install()).iter().map(|s| s.step).collect();
    assert_eq!(
        steps,
        vec![
            ChdStep::SyncTemp,
            ChdStep::InstallTemp,
            ChdStep::SyncDirectory,
            ChdStep::RemoveOverlay
        ]
    );
    let mut files = hd.close();
    files.base = merged;
    files.hunks = None;
    let hd2 = open_hd(files, false).unwrap();
    assert_eq!(hd2.read(2, 1).unwrap(), vec![0x5A; 512], "the write folded in");
    assert_eq!(hd2.read(0, 1).unwrap(), vec![0xAB; 512], "rest preserved");
}

#[test]
fn cow_keeps_changes_separate_and_rolls_back() {
    let mut hd = open_hd(make_base(128 * 1024, 0xCC, true), true).unwrap();
    assert!(hd.hd.is_cow());
    assert!(hd.hd.overlay_paths().is_some());
    hd.write(1, &[0x33; 512]).unwrap();
    assert!(hd.hd.diff_dirty());
    assert!(hd.hd.pending_sync().is_none(), "COW keeps changes separate");

    let hd_off = open_hd(hd.close(), false).unwrap();
    assert!(hd_off.hd.pending_sync().is_some(), "COW off: the diff auto-folds on a clean exit");
    assert_eq!(hd_off.read(1, 1).unwrap(), vec![0x33; 512]);

    let mut files = hd_off.close();
    files.run(&discard_overlay());
    let hd_rb = open_hd(files, true).unwrap();
    assert_eq!(hd_rb.read(1, 1).unwrap(), vec![0xCC; 512], "rollback restored");
}

#[test]
fn cancelled_flatten_preserves_base_and_diff() {
    let mut hd = open_hd(make_base(128 * 1024, 0x11, true), false).unwrap();
    hd.write(1, &[0x22; 512]).unwrap();
    assert!(hd.hd.pending_sync().is_some());
    for steps in [flatten_diff(false, true), flatten_diff(true, false)] {
        assert_eq!(steps.len(), 1);
        assert_eq!(steps[0].step, ChdStep::RemoveTemp);
    }
    let (_, check) = stream(&hd, 512, Some(5));
    assert!(!check.may_install(), "a source that failed is not whole");
    assert!(!CheckedReader::new(1).may_install(), "a source that ended early is not whole");
}

#[test]
fn overlay_header_round_trips_and_rejects_damage() {
    let h = OverlayHeader {
        base_logical: 240_000_172_032,
        base_hunk_bytes: 4096,
        base_unit_bytes: 512,
        base_len: 234_375_292,
        base_mtime_secs: 1_789_000_000,
        base_mtime_nanos: 123_456_789,
        zero_hunks: vec![0x01, 0x80, 0x00, 0xFF],
    };
    let raw = h.encode();
    assert_eq!(raw.len(), BITMAP_OFFSET + 4);
    let back = OverlayHeader::decode(&raw).unwrap();
    assert_eq!(back.base_logical, h.base_logical);
    assert_eq!(back.base_hunk_bytes, h.base_hunk_bytes);
    assert_eq!(back.base_unit_bytes, h.base_unit_bytes);
    assert_eq!(back.base_len, h.base_len);
    assert_eq!(back.base_mtime_secs, h.base_mtime_secs);
    assert_eq!(back.base_mtime_nanos, h.base_mtime_nanos);
    assert_eq!(back.zero_hunks, h.zero_hunks);

    assert!(OverlayHeader::decode(&raw[..BITMAP_OFFSET - 1]).is_err(), "too short");
    let mut bad_magic = raw.clone();
    bad_magic[0] ^= 0xFF;
    assert!(OverlayHeader::decode(&bad_magic).is_err(), "wrong magic");
    let mut bad_len = raw.clone();
    bad_len[44] = 99;
    assert!(OverlayHeader::decode(&bad_len).is_err(), "bitmap length mismatch");
}

#[test]
fn overlays_of_another_geometry_are_refused() {
    let g = make_base(64 * 1024, 0, false).geometry();
    let id = BaseIdentity { len: 1, mtime_secs: 2, mtime_nanos: 3 };
    let header = fresh_header(g, id).unwrap();
    assert!(check_attach(&header, g, id, "b", "o").is_ok());
    let other = ChdGeometry { hunk_bytes: 8192, ..g };
    assert!(check_attach(&header, other, id, "b", "o").is_err());
    assert!(check_apply(4096, g.hunk_count, g, "b", "o").is_ok());
    assert_eq!(
        check_apply(4096, 3, g, "b", "o").unwrap_err().message,
        "overlay o describes 3 hunks of 4096 bytes; base b has 16 of 4096"
    );
    assert!(fresh_header(ChdGeometry { hunk_bytes: 0, ..g }, id).is_err());
}

#[test]
fn overlays_are_classified_by_record_and_parent() {
    assert_eq!(classify_overlay(true, &PARENT), ExistingOverlay::Sparse);
    assert_eq!(classify_overlay(false, &PARENT), ExistingOverlay::Parented);
    assert_eq!(classify_overlay(false, &[0; 20]), ExistingOverlay::UnlinkableParentless);
    let mut last = [0; 20];
    last[19] = 1;
    assert_eq!(classify_overlay(false, &last), ExistingOverlay::Parented);
    assert_eq!(commit_overlay(ExistingOverlay::Sparse), CommitAction::ApplyHunks);
    assert_eq!(commit_overlay(ExistingOverlay::Parented), CommitAction::Flatten);
    assert_eq!(commit_overlay(ExistingOverlay::UnlinkableParentless), CommitAction::Discard);
    assert_eq!(committed_units(CommitAction::Flatten, 9), 1);
    assert_eq!(committed_units(CommitAction::Discard, 9), 0);
}

#[test]
fn stale_markers_are_cleared() {
    assert_eq!(resume_interrupted_commit(false, true, None), ResumeAction::Nothing);
    assert_eq!(resume_interrupted_commit(true, false, None), ResumeAction::ClearMarker);
    assert_eq!(
        resume_interrupted_commit(true, true, Some(ExistingOverlay::Parented)),
        ResumeAction::ClearStaleMarker
    );
    assert_eq!(resume_interrupted_commit(true, true, None), ResumeAction::ClearStaleMarker);
}

#[test]
fn only_hard_disks_are_opened() {
    let e = open_action("a.chd", false, true, None, true).unwrap_err();
    assert_eq!(e.kind, DiskErrorKind::InvalidInput);
    assert_eq!(e.message, "a.chd is not a hard-disk CHD");
    assert_eq!(
        open_action("a.chd", true, true, None, false).unwrap(),
        (false, OpenAction::CreateParented)
    );
    assert_eq!(
        open_action("a.chd", true, false, None, false).unwrap(),
        (false, OpenAction::WriteInPlace)
    );
    assert!(check_flatten(true).is_ok());
    assert_eq!(check_flatten(false).unwrap_err().message, "not a hard-disk CHD");
    let e = ChdHd::open(OpenAction::WriteInPlace, "a.chd", "", 0, 0, false).unwrap_err();
    assert_eq!(e.message, "a.chd reports a zero sector size");
}

#[test]
fn transfers_are_whole_sectors() {
    let mut hd = ChdHd::open(OpenAction::WriteInPlace, "a", "", 512, 4096, false).unwrap();
    assert_eq!(
        hd.read_blocks(0, 1, 2048).unwrap_err().message,
        "CHD HD sector size 512 != requested block size 2048"
    );
    assert_eq!(hd.read_blocks(7, 1, 512).unwrap(), (3584, 512));
    assert_eq!(
        hd.write_sectors(0, 700).unwrap_err().message,
        "CHD HD write length 700 not a multiple of sector 512"
    );
    assert_eq!(hd.write_sectors(1, 1024).unwrap(), 512);
    assert!(hd.flush());
    assert!(!hd.diff_dirty(), "there is no overlay to diverge");
    hd.flushed();
    assert!(!hd.flush());
}

#[test]
fn a_rebuild_keeps_every_record_or_is_refused() {
    let tag = |t: &[u8; 4]| u32::from_be_bytes(*t);
    assert_eq!(unsupported_record(&vec![(tag(b"GDDD"), 0), (tag(b"IDNT"), 0)]), None);
    assert_eq!(unsupported_record(&vec![(tag(b"GDDD"), 0), (tag(b"KEY "), 0)]), Some(tag(b"KEY ")));
    assert_eq!(unsupported_record(&vec![(tag(b"IDNT"), 0), (tag(b"IDNT"), 1)]), Some(tag(b"IDNT")));
}

#[test]
fn paths_beside_the_base() {
    assert_eq!(diff_path_for("/d/a.chd", &None), "/d/a.chd.diff.chd");
    let aside =
        Some(DiffDir { dir: "/c/".to_string(), path_hash: 0xABC, windows: false });
    assert_eq!(diff_path_for("/d/a.chd", &aside), "/c/a.0000000000000abc.diff.chd");
    assert_eq!(diff_path_for("/d/a.b.chd", &aside), "/c/a.b.0000000000000abc.diff.chd");
    assert_eq!(diff_path_for("/d/.chd", &aside), "/c/.chd.0000000000000abc.diff.chd");
    assert_eq!(diff_path_for("/d/..", &aside), "/c/disk.0000000000000abc.diff.chd");
    let aside = Some(DiffDir { dir: "C:\\c\\".to_string(), path_hash: 1, windows: true });
    assert_eq!(diff_path_for("C:\\d\\a.chd", &aside), "C:\\c\\a.0000000000000001.diff.chd");
    assert_eq!(apply_marker_path("o"), "o.apply");
    assert_eq!(creating_path("o"), "o.creating");
    assert_eq!(temp_sync_path_for("b"), "b.synctmp.chd");
    assert_eq!(marker_text("b", "o"), "base=b\noverlay=o\n");
}

#[test]
fn chd_images_are_known_by_extension() {
    for yes in ["a.chd", "/x/a.CHD", "a.b.Chd", "x/a.chd/", "x/a.chd/."] {
        assert!(is_chd(yes), "{yes}");
    }
    for no in ["a.img", ".chd", "chd", "x.chd/y", "", "a.chd/..", "a.chdx"] {
        assert!(!is_chd(no), "{no}");
    }
}

#[test]
fn discs_are_read_in_blocks() {
    let cd = ChdCd::open(650_000_000);
    assert_eq!(cd.size(), 650_000_000);
    assert_eq!(cd.read_blocks(16, 2, 2048), Some((32768, 4096)));
    assert_eq!(cd.read_blocks(u64::MAX, 1, 2048), None);
}

#[test]
fn overlays_open_from_their_record() {
    let header = |bitmap: usize| OverlayHeader {
        base_logical: 4096 * 9,
        base_hunk_bytes: 4096,
        base_unit_bytes: 512,
        base_len: 1,
        base_mtime_secs: -1,
        base_mtime_nanos: 0,
        zero_hunks: vec![0x10; bitmap],
    };
    let open = |raw: Option<&[u8]>| OverlayFile::from_record("o.chd", raw, 4096, 9);
    let ov = open(Some(&header(2).encode())).unwrap();
    assert!(ov.zero_bit(4) && !ov.zero_bit(5) && !ov.zero_bit(99));
    let why = |r: Result<OverlayFile, DiskError>| {
        let e = r.err().unwrap();
        assert_eq!(e.kind, DiskErrorKind::InvalidData);
        e.message
    };
    assert_eq!(
        why(open(None)),
        "o.chd is not an IRIS sparse overlay (no IRCW record). Move it aside to start a fresh overlay, or keep it for offline inspection."
    );
    assert_eq!(
        why(open(Some(&header(3).encode()))),
        "overlay o.chd has a 3-byte presence bitmap; this disk needs 2"
    );
    assert_eq!(why(open(Some(&[0; 48]))), "overlay IRCW record has the wrong magic");
}

#[test]
fn modification_times_before_the_epoch_keep_whole_seconds() {
    let after = base_identity(7, false, 5, 30);
    assert_eq!((after.len, after.mtime_secs, after.mtime_nanos), (7, 5, 30));
    let before = base_identity(7, true, 5, 30);
    assert_eq!((before.len, before.mtime_secs, before.mtime_nanos), (7, -5, 0));
}

#[test]
fn an_overlay_is_installed_only_once_it_is_whole() {
    let steps = |built| create_overlay(built).iter().map(|p| p.step).collect::<Vec<_>>();
    assert_eq!(steps(true), vec![ChdStep::InstallCreated, ChdStep::SyncDirectory]);
    assert_eq!(steps(false), vec![ChdStep::RemoveCreating]);
}

#[test]
fn windows_paths_have_drives_and_two_separators() {
    assert!(is_chd_on("C:\\disks\\a.CHD", true));
    assert!(is_chd_on("C:a.chd", true));
    assert!(is_chd_on("C:\\disks/a.chd", true));
    assert!(!is_chd_on("C:\\disks\\.chd", true));
    assert!(!is_chd_on("C:.chd", true));
    assert!(is_chd_on("C:\\disks\\.chd", false), "elsewhere that is one name");
    assert_eq!(is_chd("d\\.chd"), std::path::MAIN_SEPARATOR == '/');
    assert!(is_chd("d/a.chd"));
}

#[test]
fn windows_prefixes_name_no_file() {
    let name = |p: &str| file_name(p, true).map(|n| n.into_iter().collect::<String>());
    let none = [
        "C:",
        "C:\\",
        "\\\\server\\share.chd",
        "\\\\server\\share.chd\\",
        "//server/share.chd",
        "\\\\.\\COM1.chd",
        "//./COM1.chd",
        "\\\\?\\a.chd",
        "\\\\?\\a/b.chd",
        "\\\\?\\C:",
        "\\\\?\\C:\\",
        "\\\\?\\UNC\\server\\share.chd",
        "\\\\?\\UNC\\server.chd",
        "\\\\?\\UNC\\server.chd\\",
        "\\\\?\\C:\\a\\.",
        "\\\\?\\C:\\a\\..",
        "a\\..",
    ];
    for path in none {
        assert_eq!(name(path), None, "{path}");
        assert!(!is_chd_on(path, true), "{path}");
    }
    let named = [
        ("\\\\server\\share\\a.chd", "a.chd"),
        ("//server/share/a.chd", "a.chd"),
        ("\\\\server\\\\a.chd", "a.chd"),
        ("\\\\a.chd", "a.chd"),
        ("\\\\.\\COM1\\a.chd", "a.chd"),
        ("\\\\?\\C:\\d\\a.chd", "a.chd"),
        ("\\\\?\\C:/a.chd", "a.chd"),
        ("\\\\?\\C:\\d/a.chd", "d/a.chd"),
        ("\\\\?\\C:a\\b.chd", "b.chd"),
        ("\\\\?\\UNC\\server\\share\\a.chd", "a.chd"),
        ("\\\\?\\vol\\a.chd", "a.chd"),
        ("//?/vol/share/a.chd", "a.chd"),
        ("C:a.chd\\.", "a.chd"),
        ("1:a.chd", "1:a.chd"),
    ];
    for (path, want) in named {
        assert_eq!(name(path).as_deref(), Some(want), "{path}");
        assert!(is_chd_on(path, true), "{path}");
    }
}

#[test]
fn an_empty_transfer_is_placed_by_a_sparse_overlay_only() {
    let open = |action, diff| ChdHd::open(action, "a", diff, 512, 4096, false).unwrap();
    let mut hd = open(OpenAction::WriteInPlace, "");
    assert_eq!(hd.read_blocks(9, 0, 512).unwrap(), (0, 0));
    assert_eq!(hd.read_blocks(u64::MAX, 0, 512).unwrap(), (0, 0));
    assert_eq!(hd.write_sectors(9, 0).unwrap(), 0);
    assert!(!hd.flush(), "nothing was written");
    assert!(hd.read_blocks(8, 1, 512).is_err());
    assert!(hd.write_sectors(8, 512).is_err());
    assert!(hd.read_blocks(9, 0, 2048).is_err(), "the block size is tested all the same");
    let mut hd = open(OpenAction::ReopenParented, "a.diff.chd");
    assert_eq!(hd.read_blocks(9, 0, 512).unwrap(), (0, 0));
    assert_eq!(hd.write_sectors(9, 0).unwrap(), 0);
    assert!(hd.diff_dirty());
    let mut hd = open(OpenAction::AttachSparse, "a.diff.chd");
    assert_eq!(
        hd.read_blocks(9, 0, 512).unwrap_err().message,
        "read of 0 bytes at 4608 runs past the end of the disk"
    );
    assert!(hd.write_sectors(9, 0).is_err());
    assert_eq!(hd.read_blocks(8, 0, 512).unwrap(), (4096, 0));
}

#[test]
fn file_names_are_those_of_the_host() {
    let paths = ["", "/", ".", "..", "a", "a/", "a/.", "a/..", "./.", "/a.b.chd", "a//b/./", ".chd"];
    for path in paths {
        let p = std::path::Path::new(path);
        let text = |v: Option<Vec<char>>| v.map(|c| c.into_iter().collect::<String>());
        let name = p.file_name().map(|n| n.to_string_lossy().into_owned());
        assert_eq!(text(file_name(path, false)), name, "{path}");
        let stem = p.file_stem().map(|n| n.to_string_lossy().into_owned());
        assert_eq!(text(file_stem(path, false)), stem, "{path}");
        assert_eq!(is_chd(path), p.extension().is_some_and(|e| e == "chd"), "{path}");
    }
}

#[test]
fn a_rebuild_is_made_of_what_the_base_is_made_of() {
    let tag = |t: &[u8; 4]| u32::from_be_bytes(*t);
    let geometry = HdGeometry { cylinders: 8, heads: 16, sectors: 63, sector_bytes: 512 };
    let base = || BaseStructure {
        is_hd: true,
        logical_bytes: 8 * 16 * 63 * 512,
        hunk_bytes: 4096,
        unit_bytes: 512,
        codecs: [1, 2, 3, 0],
        geometry: Some(geometry),
        ident: Some(vec![7, 8, 9]),
        records: vec![(tag(b"GDDD"), 0), (tag(b"IDNT"), 0)],
    };
    let o = rebuild_options("b.chd", base()).unwrap();
    assert_eq!((o.logical_size, o.hunk_size, o.unit_size), (8 * 16 * 63 * 512, 4096, 512));
    assert_eq!(o.codecs, [1, 2, 3, 0]);
    assert_eq!(o.geometry, Some(geometry));
    assert_eq!(o.ident, Some(vec![7, 8, 9]));
    let why = |b: BaseStructure| rebuild_options("b.chd", b).err().unwrap();
    assert_eq!(why(BaseStructure { is_hd: false, ..base() }).message, "not a hard-disk CHD");
    let lost = why(BaseStructure { records: vec![(tag(b"KEY "), 0)], ..base() });
    assert_eq!(lost.kind, DiskErrorKind::InvalidData);
    assert_eq!(
        lost.message,
        "b.chd has a metadata record (0x4b455920) that a rebuild would lose"
    );
    assert_eq!(
        why(BaseStructure { geometry: None, ..base() }).message,
        "b.chd has a geometry record that cannot be read"
    );
    assert_eq!(
        why(BaseStructure { ident: None, ..base() }).message,
        "b.chd has an identification record that cannot be read"
    );
    let plain = BaseStructure { ident: None, records: vec![(tag(b"GDDD"), 0)], ..base() };
    assert_eq!(rebuild_options("b.chd", plain).unwrap().ident, None);
}

#[test]
fn a_marker_is_cleared_durably() {
    let steps: Vec<ChdStep> = clear_marker().iter().map(|p| p.step).collect();
    assert_eq!(steps, vec![ChdStep::RemoveMarker, ChdStep::SyncDirectory]);
}

#[test]
fn an_unsaved_mark_is_not_forgotten() {
    let g = ChdGeometry {
        logical_bytes: 8,
        hunk_bytes: 4,
        unit_bytes: 4,
        hunk_count: 2,
        compressed: false,
    };
    let identity = BaseIdentity { len: 1, mtime_secs: 2, mtime_nanos: 3 };
    let header = fresh_header(g, identity).unwrap();
    let mut ov = SparseOverlay::new(OverlayFile::open("o", header, 4, 2).ok().unwrap(), g);
    let at = |ov: &SparseOverlay, offset| ov.write_at(offset, 4).unwrap()[0];
    let first = at(&ov, 0);
    let second = at(&ov, 4);
    let record = ov.patch(first, &[0; 4], &mut vec![9; 4]).unwrap();
    // The record was not written. A write that marks nothing keeps it due.
    assert!(ov.patch(second, &[1; 4], &mut vec![0; 4]).is_none());
    assert_eq!(ov.persist_pending(), Some(record));
    ov.record_saved();
    assert!(ov.persist_pending().is_none());
}
