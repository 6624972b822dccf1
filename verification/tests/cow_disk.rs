use iris::cow_disk::dirty_sidecar_path;
use iris::cow_disk::load_dirty_list;
use iris::cow_disk::CowDisk;
use iris::cow_disk::FileStep;
use iris::cow_disk::ImportAction;
use iris::cow_disk::SECTOR_SIZE;
use iris::disk_error::DiskError;
use iris::disk_error::DiskErrorKind;

const S: usize = SECTOR_SIZE as usize;

/// A disk with its files in memory.
struct Disk {
    base: Vec<u8>,
    overlay: Vec<u8>,
    sidecar: Option<Vec<u8>>,
    cow: CowDisk,
}

fn open(base: Vec<u8>, overlay: Vec<u8>, sidecar: Option<Vec<u8>>) -> Result<Disk, DiskError> {
    let cow = CowDisk::new("disk.img", "session.cow", base.len() as u64, sidecar.as_deref())?;
    Ok(Disk { base, overlay, sidecar, cow })
}

fn fresh(sectors: usize, fill: u8) -> Disk {
    open(vec![fill; sectors * S], vec![], None).unwrap()
}

impl Disk {
    fn write(&mut self, lba: u64, data: &[u8]) -> Result<(), DiskError> {
        let at = self.cow.write_sectors(lba, data.len())? as usize;
        if self.overlay.len() < at + data.len() {
            self.overlay.resize(at + data.len(), 0);
        }
        self.overlay[at..at + data.len()].copy_from_slice(data);
        self.cow.mark_written(lba, (data.len() / S) as u64);
        Ok(())
    }

    fn read(&self, lba: u64, count: u64) -> Result<Vec<u8>, DiskError> {
        let mut out = Vec::new();
        for run in self.cow.read_sectors(lba, count)? {
            let file = if run.from_overlay { &self.overlay } else { &self.base };
            let at = run.sector as usize * S;
            out.extend_from_slice(&file[at..at + run.sectors as usize * S]);
        }
        Ok(out)
    }

    fn run(&mut self, steps: &[FileStep]) {
        for step in steps {
            match step {
                FileStep::CopySector(lba) => {
                    let at = *lba as usize * S;
                    let sector = self.overlay[at..at + S].to_vec();
                    self.base[at..at + S].copy_from_slice(&sector);
                }
                FileStep::ForgetDirty => self.cow.forget_dirty(),
                FileStep::SaveList => self.sidecar = Some(self.cow.sidecar()),
                FileStep::TruncateOverlay => self.overlay.clear(),
                FileStep::SyncBase | FileStep::SyncOverlay | FileStep::ReopenBase => {}
            }
        }
    }
}

#[test]
fn commit_uses_the_configured_base_not_the_overlay_name() {
    let mut d = fresh(64, 0xAA);
    d.write(3, &[0x5A; 512]).unwrap();
    assert_eq!(d.read(3, 1).unwrap(), vec![0x5A; 512]);
    assert_eq!(d.base[3 * 512], 0xAA, "base untouched before commit");
    assert_eq!(d.cow.commit_target(), "disk.img");
    assert_eq!(d.cow.overlay_name(), "session.cow");

    let (steps, count) = d.cow.commit();
    assert_eq!(count, 1);
    d.run(&steps);
    assert_eq!(d.cow.dirty_count(), 0);
    assert_eq!(&d.base[3 * 512..4 * 512], &vec![0x5A; 512][..], "commit reached the base");
    assert_eq!(&d.base[2 * 512..3 * 512], &vec![0xAA; 512][..], "neighbour untouched");
}

#[test]
fn commit_persists_an_empty_dirty_set_before_truncating() {
    let mut d = fresh(64, 0xAA);
    d.write(7, &[0x5A; 512]).unwrap();
    let (steps, _) = d.cow.commit();
    let save = steps.iter().position(|s| *s == FileStep::SaveList).unwrap();
    let cut = steps.iter().position(|s| *s == FileStep::TruncateOverlay).unwrap();
    let forget = steps.iter().position(|s| *s == FileStep::ForgetDirty).unwrap();
    assert!(forget < save && save < cut);
    d.run(&steps);
    let set = load_dirty_list("session.cow.dirty", d.sidecar.as_ref().unwrap(), 64).unwrap();
    assert!(set.is_empty(), "the empty set is durable as soon as commit returns");
    assert_eq!(d.overlay.len(), 0, "overlay truncated");
    let d = open(d.base, d.overlay, d.sidecar).unwrap();
    assert_eq!(d.cow.dirty_count(), 0);
    assert_eq!(d.read(7, 1).unwrap(), vec![0x5A; 512], "reads the committed base");
}

#[test]
fn reset_persists_an_empty_dirty_set() {
    let mut d = fresh(64, 0xAA);
    d.write(9, &[0x5A; 512]).unwrap();
    let steps = d.cow.reset_overlay();
    d.run(&steps);
    assert!(load_dirty_list("x", d.sidecar.as_ref().unwrap(), 64).unwrap().is_empty());
    assert_eq!(d.read(9, 1).unwrap(), vec![0xAA; 512], "rollback restored the base");
}

#[test]
fn corrupt_dirty_lists_are_rejected() {
    let with = |raw: Vec<u8>| open(vec![0xAA; 64 * S], vec![], Some(raw));
    let list = |numbers: &[u64]| {
        let mut raw = Vec::new();
        for n in numbers {
            raw.extend_from_slice(&n.to_le_bytes());
        }
        raw
    };
    let Err(e) = with(list(&[u64::MAX])) else {
        panic!("an absurd dirty-list count must be refused");
    };
    assert_eq!(e.kind, DiskErrorKind::InvalidData);
    assert!(e.message.contains("claims"), "{}", e.message);

    assert!(with(list(&[5, 1])).is_err());
    assert!(with(vec![1, 2, 3]).is_err());

    let Err(e) = with(list(&[1, 999])) else {
        panic!("an out-of-range dirty sector must be refused");
    };
    assert!(e.message.contains("999"), "{}", e.message);

    assert_eq!(with(list(&[1, 4])).unwrap().cow.dirty_count(), 1);
}

#[test]
fn out_of_range_writes_are_refused() {
    let mut d = fresh(64, 0xAA);
    assert!(d.write(64, &[0x5A; 512]).is_err(), "first sector past the end");
    assert!(d.write(63, &[0x5A; 1024]).is_err(), "straddling the end");
    assert!(d.read(64, 1).is_err(), "reads bounded too");
    assert_eq!(d.cow.dirty_count(), 0, "a rejected write marks nothing dirty");
    assert!(d.write(0, &[0x5A; 700]).is_err());
    assert_eq!(d.cow.dirty_count(), 0);
    assert!(d.cow.check_range(u64::MAX, 1).is_err());
}

#[test]
fn import_refuses_a_missing_overlay_with_dirty_sectors() {
    let mut d = fresh(64, 0xAA);
    let e = d.cow.import_overlay("absent.cow", false, &vec![1, 2, 3]).unwrap_err();
    assert_eq!(e.kind, DiskErrorKind::NotFound);
    assert!(d.cow.import_overlay("absent.cow", false, &vec![9999]).is_err());
    assert_eq!(
        d.cow.import_overlay("absent.cow", false, &vec![]).unwrap(),
        ImportAction::CreateEmpty
    );
    assert_eq!(
        d.cow.import_overlay("saved.cow", true, &vec![1, 2]).unwrap(),
        ImportAction::CopySaved
    );
    assert_eq!(d.cow.dirty_count(), 0);
    d.cow.adopt(&vec![5, 2]);
    assert_eq!(d.cow.export_overlay(), vec![2, 5]);
}

#[test]
fn overlay_round_trips_across_a_reopen() {
    let mut d = fresh(64, 0xAA);
    d.write(2, &[0x11; 512]).unwrap();
    d.write(20, &[0x22; 1024]).unwrap();
    let steps = d.cow.flush();
    d.run(&steps);
    let d = open(d.base, d.overlay, d.sidecar).unwrap();
    assert_eq!(d.cow.dirty_count(), 3);
    assert_eq!(d.read(2, 1).unwrap(), vec![0x11; 512]);
    assert_eq!(d.read(20, 2).unwrap(), vec![0x22; 1024]);
    assert_eq!(d.read(3, 1).unwrap(), vec![0xAA; 512], "clean sector from the base");
    let span = d.read(1, 3).unwrap();
    assert_eq!(&span[..512], &vec![0xAA; 512][..]);
    assert_eq!(&span[512..1024], &vec![0x11; 512][..]);
    assert_eq!(&span[1024..], &vec![0xAA; 512][..]);
}

#[test]
fn an_interrupted_commit_loses_nothing() {
    let build = || {
        let mut d = fresh(8, 0xAA);
        d.write(2, &[0x11; 512]).unwrap();
        d.write(5, &[0x22; 512]).unwrap();
        let steps = d.cow.flush();
        d.run(&steps);
        d
    };
    let want = build().read(0, 8).unwrap();
    let (steps, _) = build().cow.commit();
    for n in 0..=steps.len() {
        let mut d = build();
        d.run(&steps[..n]);
        let d = open(d.base, d.overlay, d.sidecar).unwrap();
        assert_eq!(d.read(0, 8).unwrap(), want, "interrupted after {n} steps");
    }
}

#[test]
fn sizes_and_paths() {
    let d = fresh(64, 0);
    assert_eq!(d.cow.size(), 64 * SECTOR_SIZE);
    assert_eq!(d.cow.sector_count(), 64);
    assert_eq!(dirty_sidecar_path("a.overlay"), d.cow.sidecar_path().replace("session.cow", "a.overlay"));
}
