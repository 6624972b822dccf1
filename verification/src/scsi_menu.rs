//! The SCSI menu: what a slot is called, and what an entry does to the configuration.
use vstd::prelude::*;
use std::collections::HashMap;
use crate::chd_disk::file_name;
use crate::config::ScsiDeviceConfig;
use crate::machine_config::MachineConfig;
use crate::text::chars_of;
use crate::text::owned;
use crate::text::push_decimal;
use crate::text::string_of;

verus! {

/// What the user picked from the menu of a slot.
#[derive(Clone, Debug, PartialEq, Eq)]
pub enum ScsiAction {
    AttachHdd { id: u8, path: String },
    AttachEmptyCdrom { id: u8 },
    AttachCdromWithDisc { id: u8, path: String },
    InsertDisc { id: u8, path: String },
    Eject { id: u8 },
    Detach { id: u8 },
    ToggleOverlay { id: u8 },
}

impl ScsiAction {
    /// The slot that the entry belongs to.
    pub open spec fn slot(self) -> u8 {
        match self {
            ScsiAction::AttachHdd { id, path } => id,
            ScsiAction::AttachEmptyCdrom { id } => id,
            ScsiAction::AttachCdromWithDisc { id, path } => id,
            ScsiAction::InsertDisc { id, path } => id,
            ScsiAction::Eject { id } => id,
            ScsiAction::Detach { id } => id,
            ScsiAction::ToggleOverlay { id } => id,
        }
    }

    /// What stands in the slot afterwards, given what stands there.
    pub open spec fn becomes(self, dev: Option<crate::config::DeviceView>) -> Option<
        crate::config::DeviceView,
    > {
        let blank = crate::config::DeviceView::blank();
        match self {
            ScsiAction::AttachHdd { id, path } => Some(
                crate::config::DeviceView { path: path@, ..blank },
            ),
            ScsiAction::AttachEmptyCdrom { id } => Some(
                crate::config::DeviceView { cdrom: true, ..blank },
            ),
            ScsiAction::AttachCdromWithDisc { id, path } => Some(
                crate::config::DeviceView { path: path@, cdrom: true, ..blank },
            ),
            ScsiAction::InsertDisc { id, path } => match dev {
                Some(d) => Some(crate::config::DeviceView { path: path@, ..d }),
                None => None,
            },
            ScsiAction::Eject { id } => match dev {
                Some(d) => Some(crate::config::DeviceView { path: seq![], ..d }),
                None => None,
            },
            ScsiAction::Detach { id } => None,
            ScsiAction::ToggleOverlay { id } => match dev {
                Some(d) => Some(crate::config::DeviceView { overlay: !d.overlay, ..d }),
                None => None,
            },
        }
    }

    /// The devices afterwards.
    pub open spec fn over(self, devs: Map<u8, crate::config::DeviceView>) -> Map<
        u8,
        crate::config::DeviceView,
    > {
        let dev = if devs.contains_key(self.slot()) {
            Some(devs[self.slot()])
        } else {
            None
        };
        match self.becomes(dev) {
            Some(d) => devs.insert(self.slot(), d),
            None => devs.remove(self.slot()),
        }
    }

    /// What the user is told.
    pub open spec fn message(self) -> Seq<char> {
        "scsi"@ + crate::text::decimal(self.slot() as nat) + match self {
            ScsiAction::AttachHdd { id, path } => ": HDD attached"@,
            ScsiAction::AttachEmptyCdrom { id } =>
                ": empty CD-ROM drive attached (Stop\u{2192}Start if VM is running)"@,
            ScsiAction::AttachCdromWithDisc { id, path } => ": CD-ROM attached with disc"@,
            ScsiAction::InsertDisc { id, path } => ": disc inserted"@,
            ScsiAction::Eject { id } => ": ejected"@,
            ScsiAction::Detach { id } => ": detached"@,
            ScsiAction::ToggleOverlay { id } => ": overlay toggled"@,
        }
    }
}

fn told(id: u8, what: &str) -> (r: String)
    ensures
        r@ == "scsi"@ + crate::text::decimal(id as nat) + what@,
{
    let mut m = owned("scsi");
    push_decimal(&mut m, id as u64);
    m.append(what);
    m
}

fn set_device(map: &mut HashMap<u8, ScsiDeviceConfig>, id: u8, dev: ScsiDeviceConfig)
    ensures
        crate::machine_config::devices(final(map)@) == crate::machine_config::devices(
            old(map)@,
        ).insert(id, dev@),
{
    let ghost before = map@;
    let ghost d = dev;
    map.insert(id, dev);
    proof {
        assert(map@ =~= before.insert(id, d));
        assert(crate::machine_config::devices(map@) =~= crate::machine_config::devices(
            before,
        ).insert(id, d@));
    }
}

fn take_device(map: &mut HashMap<u8, ScsiDeviceConfig>, id: u8) -> (r: Option<ScsiDeviceConfig>)
    ensures
        crate::machine_config::devices(final(map)@) == crate::machine_config::devices(
            old(map)@,
        ).remove(id),
        match r {
            Some(d) => crate::machine_config::devices(old(map)@).contains_key(id)
                && crate::machine_config::devices(old(map)@)[id] == d@,
            None => !crate::machine_config::devices(old(map)@).contains_key(id),
        },
{
    let ghost before = map@;
    let r = map.remove(&id);
    proof {
        assert(map@ =~= before.remove(id));
        assert(crate::machine_config::devices(map@) =~= crate::machine_config::devices(
            before,
        ).remove(id));
    }
    r
}

fn change_devices(scsi: &mut HashMap<u8, ScsiDeviceConfig>, action: ScsiAction) -> (r: String)
    ensures
        r@ == action.message(),
        crate::machine_config::devices(final(scsi)@) == action.over(
            crate::machine_config::devices(old(scsi)@),
        ),
{
    let ghost before = crate::machine_config::devices(scsi@);
    let ghost want = action.over(before);
    match action {
        ScsiAction::AttachHdd { id, path } => {
            let mut d = ScsiDeviceConfig::default();
            d.path = path;
            set_device(scsi, id, d);
            told(id, ": HDD attached")
        },
        ScsiAction::AttachEmptyCdrom { id } => {
            let mut d = ScsiDeviceConfig::default();
            d.cdrom = true;
            set_device(scsi, id, d);
            told(id, ": empty CD-ROM drive attached (Stop\u{2192}Start if VM is running)")
        },
        ScsiAction::AttachCdromWithDisc { id, path } => {
            let mut d = ScsiDeviceConfig::default();
            d.path = path;
            d.cdrom = true;
            set_device(scsi, id, d);
            told(id, ": CD-ROM attached with disc")
        },
        ScsiAction::InsertDisc { id, path } => {
            match take_device(scsi, id) {
                Some(dev) => {
                    let mut d = dev;
                    d.path = path;
                    set_device(scsi, id, d);
                },
                None => {},
            }
            proof {
                assert(crate::machine_config::devices(scsi@) =~= want);
            }
            told(id, ": disc inserted")
        },
        ScsiAction::Eject { id } => {
            match take_device(scsi, id) {
                Some(dev) => {
                    let mut d = dev;
                    d.path = String::new();
                    proof {
                        assert(d.path@ =~= seq![]);
                    }
                    set_device(scsi, id, d);
                },
                None => {},
            }
            proof {
                assert(crate::machine_config::devices(scsi@) =~= want);
            }
            told(id, ": ejected")
        },
        ScsiAction::Detach { id } => {
            let _ = take_device(scsi, id);
            told(id, ": detached")
        },
        ScsiAction::ToggleOverlay { id } => {
            match take_device(scsi, id) {
                Some(dev) => {
                    let mut d = dev;
                    d.overlay = !d.overlay;
                    set_device(scsi, id, d);
                },
                None => {},
            }
            proof {
                assert(crate::machine_config::devices(scsi@) =~= want);
            }
            told(id, ": overlay toggled")
        },
    }
}

/// Does what the user picked, and says what they are told. Nothing but the devices
/// changes.
pub fn apply(cfg: &mut MachineConfig, action: ScsiAction) -> (r: Option<String>)
    ensures
        r matches Some(m) && m@ == action.message(),
        crate::machine_config::devices(final(cfg).scsi@) == action.over(
            crate::machine_config::devices(old(cfg).scsi@),
        ),
        *final(cfg) == (MachineConfig { scsi: final(cfg).scsi, ..*old(cfg) }),
{
    Some(change_devices(&mut cfg.scsi, action))
}

/// An entry changes only the slot that it belongs to.
pub proof fn law_entries_touch_one_slot(
    action: ScsiAction,
    devs: Map<u8, crate::config::DeviceView>,
    other: u8,
)
    requires
        other != action.slot(),
    ensures
        action.over(devs).contains_key(other) == devs.contains_key(other),
        devs.contains_key(other) ==> action.over(devs)[other] == devs[other],
{
}

/// Toggling the overlay twice leaves the devices as they were.
pub proof fn law_toggling_twice_changes_nothing(id: u8, devs: Map<u8, crate::config::DeviceView>)
    ensures
        ({
            let toggle = ScsiAction::ToggleOverlay { id };
            toggle.over(toggle.over(devs)) == devs
        }),
{
    let toggle = ScsiAction::ToggleOverlay { id };
    assert(toggle.over(toggle.over(devs)) =~= devs);
}

/// Ejecting undoes an insertion into an empty drive.
pub proof fn law_ejecting_undoes_inserting(
    id: u8,
    path: String,
    devs: Map<u8, crate::config::DeviceView>,
)
    requires
        devs.contains_key(id) ==> devs[id].path == Seq::<char>::empty(),
    ensures
        (ScsiAction::Eject { id }).over((ScsiAction::InsertDisc { id, path }).over(devs)) == devs,
{
    assert((ScsiAction::Eject { id }).over((ScsiAction::InsertDisc { id, path }).over(devs)) =~= devs);
}

/// Detaching undoes attaching to an empty slot.
pub proof fn law_detaching_undoes_attaching(
    id: u8,
    path: String,
    devs: Map<u8, crate::config::DeviceView>,
)
    requires
        !devs.contains_key(id),
    ensures
        (ScsiAction::Detach { id }).over((ScsiAction::AttachHdd { id, path }).over(devs)) == devs,
        (ScsiAction::Detach { id }).over((ScsiAction::AttachEmptyCdrom { id }).over(devs)) == devs,
        (ScsiAction::Detach { id }).over((ScsiAction::AttachCdromWithDisc { id, path }).over(devs))
            == devs,
{
    assert((ScsiAction::Detach { id }).over((ScsiAction::AttachHdd { id, path }).over(devs)) =~= devs);
    assert((ScsiAction::Detach { id }).over((ScsiAction::AttachEmptyCdrom { id }).over(devs))
        =~= devs);
    assert((ScsiAction::Detach { id }).over((ScsiAction::AttachCdromWithDisc { id, path }).over(devs))
        =~= devs);
}

// ---------------------------------------------------------------------------
// Labels
// ---------------------------------------------------------------------------

/// Bytes of a megabyte.
pub const MEGABYTE: u64 = 1_048_576;

/// A size in megabytes, rounded to the nearest, and to the even one half way.
pub open spec fn megabytes(size: int) -> int {
    let whole = size / MEGABYTE as int;
    let rest = size % MEGABYTE as int;
    if rest * 2 > MEGABYTE || (rest * 2 == MEGABYTE && whole % 2 == 1) {
        whole + 1
    } else {
        whole
    }
}

/// The file name of an image, or its whole path if that names no file.
pub open spec fn shown_name(path: Seq<char>, windows: bool) -> Seq<char> {
    match crate::chd_disk::file_name_on(path, windows) {
        Some(name) => name,
        None => path,
    }
}

/// The file name of an image, or its whole path if that names no file.
pub fn show_name(path: &str, windows: bool) -> (r: String)
    ensures
        r@ == shown_name(path@, windows),
{
    match file_name(path, windows) {
        Some(name) => string_of(&name),
        None => owned(path),
    }
}

/// What a slot is called. `exists` says whether the image is there, `size` how many
/// bytes it has, `windows` that its path is one of Windows.
pub open spec fn label(
    id: u8,
    dev: Option<crate::config::DeviceView>,
    exists: bool,
    size: u64,
    windows: bool,
) -> Seq<char> {
    let head = "SCSI #"@ + crate::text::decimal(id as nat);
    match dev {
        None => head + ": (empty)"@,
        Some(d) => if d.kind() == crate::config::ScsiKind::Daynaport {
            head + ": DaynaPort (Ethernet)"@
        } else if d.kind() == crate::config::ScsiKind::Cdrom {
            if d.path.len() == 0 {
                head + ": CD (no media)"@
            } else if !exists {
                head + ": CD \u{26a0} "@ + d.path + " (missing)"@
            } else {
                head + ": CD "@ + shown_name(d.path, windows)
            }
        } else {
            let named = head + ": HDD "@ + shown_name(d.path, windows);
            let sized = if size > 0 {
                named + " ("@ + crate::text::decimal(megabytes(size as int) as nat) + " MB)"@
            } else {
                named
            };
            if d.overlay {
                sized + " [COW]"@
            } else {
                sized
            }
        },
    }
}

/// What a slot is called: what is attached, and of a disk image its file name and
/// size.
pub fn render_label(
    id: u8,
    dev: Option<&ScsiDeviceConfig>,
    exists: bool,
    size: u64,
    windows: bool,
) -> (r: String)
    ensures
        r@ == label(
            id,
            match dev {
                Some(d) => Some(d@),
                None => None,
            },
            exists,
            size,
            windows,
        ),
{
    let mut s = owned("SCSI #");
    push_decimal(&mut s, id as u64);
    match dev {
        None => {
            s.append(": (empty)");
        },
        Some(d) => {
            if d.is_daynaport() {
                s.append(": DaynaPort (Ethernet)");
            } else if d.is_cdrom() {
                if chars_of(d.path.as_str()).len() == 0 {
                    s.append(": CD (no media)");
                } else if !exists {
                    s.append(": CD \u{26a0} ");
                    s.append(d.path.as_str());
                    s.append(" (missing)");
                } else {
                    s.append(": CD ");
                    s.append(show_name(d.path.as_str(), windows).as_str());
                }
            } else {
                s.append(": HDD ");
                s.append(show_name(d.path.as_str(), windows).as_str());
                if size > 0 {
                    let whole: u64 = size / MEGABYTE;
                    let rest: u64 = size % MEGABYTE;
                    let mb: u64 = if rest * 2 > MEGABYTE || (rest * 2 == MEGABYTE && whole % 2
                        == 1) {
                        whole + 1
                    } else {
                        whole
                    };
                    s.append(" (");
                    push_decimal(&mut s, mb);
                    s.append(" MB)");
                }
                if d.overlay {
                    s.append(" [COW]");
                }
            }
        },
    }
    s
}

// ---------------------------------------------------------------------------
// File dialogs
// ---------------------------------------------------------------------------

/// A choice of file types in a dialog.
#[derive(Clone, Debug, PartialEq, Eq)]
pub struct FileFilter {
    pub name: String,
    pub extensions: Vec<String>,
}

/// A dialog that asks for a file.
#[derive(Clone, Debug, PartialEq, Eq)]
pub struct FileDialog {
    pub title: String,
    /// The file whose folder the dialog starts in; the folder for disks if it has
    /// none.
    pub start: String,
    pub filters: Vec<FileFilter>,
}

/// The filters of a dialog as plain values.
pub open spec fn filters_view(f: Seq<FileFilter>) -> Seq<(Seq<char>, Seq<Seq<char>>)> {
    Seq::new(f.len(), |i: int| (f[i].name@, crate::text::texts(f[i].extensions@)))
}

fn filter2(name: &str, a: &str, b: &str) -> (r: FileFilter)
    ensures
        r.name@ == name@,
        crate::text::texts(r.extensions@) == seq![a@, b@],
{
    let mut extensions: Vec<String> = Vec::new();
    extensions.push(owned(a));
    extensions.push(owned(b));
    proof {
        assert(crate::text::texts(extensions@) =~= seq![a@, b@]);
    }
    FileFilter { name: owned(name), extensions }
}

fn filter_all() -> (r: FileFilter)
    ensures
        r.name@ == "All"@,
        crate::text::texts(r.extensions@) == seq!["*"@],
{
    let mut extensions: Vec<String> = Vec::new();
    extensions.push(owned("*"));
    proof {
        assert(crate::text::texts(extensions@) =~= seq!["*"@]);
    }
    FileFilter { name: owned("All"), extensions }
}

/// The dialog that asks for a disk image.
pub fn pick_disk(title: &str, cur: &str) -> (r: FileDialog)
    ensures
        r.title@ == title@,
        r.start@ == cur@,
        filters_view(r.filters@) == seq![
            ("Disk images"@, seq!["raw"@, "img"@, "chd"@]),
            ("All"@, seq!["*"@]),
        ],
{
    let mut extensions: Vec<String> = Vec::new();
    extensions.push(owned("raw"));
    extensions.push(owned("img"));
    extensions.push(owned("chd"));
    proof {
        assert(crate::text::texts(extensions@) =~= seq!["raw"@, "img"@, "chd"@]);
    }
    let mut filters: Vec<FileFilter> = Vec::new();
    filters.push(FileFilter { name: owned("Disk images"), extensions });
    filters.push(filter_all());
    proof {
        assert(filters_view(filters@) =~= seq![
            ("Disk images"@, seq!["raw"@, "img"@, "chd"@]),
            ("All"@, seq!["*"@]),
        ]);
    }
    FileDialog { title: owned(title), start: owned(cur), filters }
}

/// The dialog that asks for a disc image.
pub fn pick_iso(title: &str, cur: &str) -> (r: FileDialog)
    ensures
        r.title@ == title@,
        r.start@ == cur@,
        filters_view(r.filters@) == seq![
            ("ISO images"@, seq!["iso"@, "chd"@]),
            ("All"@, seq!["*"@]),
        ],
{
    let mut filters: Vec<FileFilter> = Vec::new();
    filters.push(filter2("ISO images", "iso", "chd"));
    filters.push(filter_all());
    proof {
        assert(filters_view(filters@) =~= seq![
            ("ISO images"@, seq!["iso"@, "chd"@]),
            ("All"@, seq!["*"@]),
        ]);
    }
    FileDialog { title: owned(title), start: owned(cur), filters }
}

// ---------------------------------------------------------------------------
// Laws of entries and labels
// ---------------------------------------------------------------------------

/// What each entry leaves in its slot. Attaching puts a new device there, with nothing else
/// configured: a disk with its image, a CD-ROM drive with an empty tray, or one with its disc.
/// Inserting and ejecting change the path of a device that is there, toggling its overlay, and
/// nothing else of it; detaching takes it away. Of an empty slot these four leave an empty slot.
pub proof fn law_what_entries_do(
    id: u8,
    path: String,
    devs: Map<u8, crate::config::DeviceView>,
)
    ensures
        ({
            let hdd = (ScsiAction::AttachHdd { id, path }).over(devs);
            &&& hdd.contains_key(id) && hdd[id].path == path@
            &&& hdd[id].kind() == crate::config::ScsiKind::Disk && plainly_attached(hdd[id])
        }),
        ({
            let empty = (ScsiAction::AttachEmptyCdrom { id }).over(devs);
            &&& empty.contains_key(id) && empty[id].path.len() == 0
            &&& empty[id].kind() == crate::config::ScsiKind::Cdrom && plainly_attached(empty[id])
        }),
        ({
            let loaded = (ScsiAction::AttachCdromWithDisc { id, path }).over(devs);
            &&& loaded.contains_key(id) && loaded[id].path == path@
            &&& loaded[id].kind() == crate::config::ScsiKind::Cdrom && plainly_attached(loaded[id])
        }),
        ({
            let inserted = (ScsiAction::InsertDisc { id, path }).over(devs);
            let ejected = (ScsiAction::Eject { id }).over(devs);
            let toggled = (ScsiAction::ToggleOverlay { id }).over(devs);
            &&& devs.contains_key(id) ==> {
                let d = devs[id];
                &&& inserted == devs.insert(id, crate::config::DeviceView { path: path@, ..d })
                &&& ejected.contains_key(id) && ejected[id].path.len() == 0
                &&& ejected[id] == (crate::config::DeviceView { path: ejected[id].path, ..d })
                &&& toggled == devs.insert(
                    id,
                    crate::config::DeviceView { overlay: !d.overlay, ..d },
                )
            }
            &&& !devs.contains_key(id) ==> inserted == devs && ejected == devs && toggled == devs
        }),
        !(ScsiAction::Detach { id }).over(devs).contains_key(id),
{
    if !devs.contains_key(id) {
        assert((ScsiAction::InsertDisc { id, path }).over(devs) =~= devs);
        assert((ScsiAction::Eject { id }).over(devs) =~= devs);
        assert((ScsiAction::ToggleOverlay { id }).over(devs) =~= devs);
    }
}

/// Nothing is configured of a device but its path and its type.
pub open spec fn plainly_attached(d: crate::config::DeviceView) -> bool {
    &&& d.discs.len() == 0 && d.mac is None && d.subnet is None
    &&& !d.overlay && !d.scratch && d.size_mb is None && d.controller == 0
}

/// Every entry belongs to the slot that it names, and the user is told of that slot.
pub proof fn law_entries_name_their_slot(id: u8, path: String)
    ensures
        (ScsiAction::AttachHdd { id, path }).slot() == id,
        (ScsiAction::AttachEmptyCdrom { id }).slot() == id,
        (ScsiAction::AttachCdromWithDisc { id, path }).slot() == id,
        (ScsiAction::InsertDisc { id, path }).slot() == id,
        (ScsiAction::Eject { id }).slot() == id,
        (ScsiAction::Detach { id }).slot() == id,
        (ScsiAction::ToggleOverlay { id }).slot() == id,
        ({
            let slot = "scsi"@ + crate::text::decimal(id as nat);
            &&& (ScsiAction::AttachHdd { id, path }).message() == slot + ": HDD attached"@
            &&& crate::text::begins_with((ScsiAction::AttachEmptyCdrom { id }).message(), slot)
            &&& (ScsiAction::AttachCdromWithDisc { id, path }).message() == slot
                + ": CD-ROM attached with disc"@
            &&& (ScsiAction::InsertDisc { id, path }).message() == slot + ": disc inserted"@
            &&& (ScsiAction::Eject { id }).message() == slot + ": ejected"@
            &&& (ScsiAction::Detach { id }).message() == slot + ": detached"@
            &&& (ScsiAction::ToggleOverlay { id }).message() == slot + ": overlay toggled"@
        }),
{
    let slot = "scsi"@ + crate::text::decimal(id as nat);
    crate::text::law_substrings(
        slot,
        slot,
        ": empty CD-ROM drive attached (Stop\u{2192}Start if VM is running)"@,
    );
}

/// A size is shown as the nearest number of megabytes: it is never more than half a megabyte
/// off, and half way between two the even one is shown.
pub proof fn law_megabytes_are_rounded(size: int)
    requires
        0 <= size,
    ensures
        ({
            let mb = megabytes(size);
            &&& -524_288 <= size - 1_048_576 * mb <= 524_288
            &&& size - 1_048_576 * mb == 524_288 || size - 1_048_576 * mb == -524_288 ==> mb % 2
                == 0
        }),
{
}

/// Every label starts with the number of its slot.
pub proof fn law_labels_name_their_slot(
    id: u8,
    dev: Option<crate::config::DeviceView>,
    exists: bool,
    size: u64,
    windows: bool,
)
    ensures
        crate::text::begins_with(
            label(id, dev, exists, size, windows),
            "SCSI #"@ + crate::text::decimal(id as nat),
        ),
{
    let head = "SCSI #"@ + crate::text::decimal(id as nat);
    let shown = label(id, dev, exists, size, windows);
    assert(shown.len() >= head.len());
    assert forall|i: int| 0 <= i < head.len() implies shown[i] == head[i] by {}
    assert(shown.take(head.len() as int) =~= head);
}

/// What the labels of drives and adapters say: an empty slot, a DaynaPort and a drive without
/// a disc are named as such, whatever else is known. A drive is named by its disc, or by the
/// whole path of one that is missing.
pub proof fn law_labels_of_drives(
    id: u8,
    d: crate::config::DeviceView,
    exists: bool,
    size: u64,
    windows: bool,
)
    requires
        d.kind() != crate::config::ScsiKind::Disk,
    ensures
        ({
            let head = "SCSI #"@ + crate::text::decimal(id as nat);
            let shown = label(id, Some(d), exists, size, windows);
            &&& label(id, None, exists, size, windows) == head + ": (empty)"@
            &&& d.kind() == crate::config::ScsiKind::Daynaport ==> shown == head
                + ": DaynaPort (Ethernet)"@
            &&& d.kind() == crate::config::ScsiKind::Cdrom && d.path.len() == 0 ==> shown == head
                + ": CD (no media)"@
            &&& d.kind() == crate::config::ScsiKind::Cdrom && d.path.len() > 0 && exists ==> shown
                == head + ": CD "@ + shown_name(d.path, windows)
            &&& d.kind() == crate::config::ScsiKind::Cdrom && d.path.len() > 0 && !exists ==> shown
                == head + ": CD \u{26a0} "@ + d.path + " (missing)"@
        }),
{
}

/// What the label of a disk says: its image, then its size, if that is known, then that it has
/// an overlay, if it has one.
pub proof fn law_labels_of_disks(
    id: u8,
    d: crate::config::DeviceView,
    exists: bool,
    size: u64,
    windows: bool,
)
    requires
        d.kind() == crate::config::ScsiKind::Disk,
    ensures
        ({
            let bare = crate::config::DeviceView { overlay: false, ..d };
            let named = label(id, Some(bare), exists, 0, windows);
            let sized = label(id, Some(bare), exists, size, windows);
            let shown = label(id, Some(d), exists, size, windows);
            &&& named == "SCSI #"@ + crate::text::decimal(id as nat) + ": HDD "@ + shown_name(
                d.path,
                windows,
            )
            &&& size > 0 ==> sized == named + " ("@ + crate::text::decimal(
                megabytes(size as int) as nat,
            ) + " MB)"@
            &&& size == 0 ==> sized == named
            &&& d.overlay ==> shown == sized + " [COW]"@
            &&& !d.overlay ==> shown == sized
        }),
{
    let bare = crate::config::DeviceView { overlay: false, ..d };
    assert(bare.kind() == crate::config::ScsiKind::Disk);
}

/// An image is shown by what stands behind the last `/` of its path, and a path that names no
/// file is shown whole.
pub proof fn law_shown_names(dir: Seq<char>, name: Seq<char>)
    requires
        crate::chd_disk::names_a_file(name, '/', '/'),
    ensures
        shown_name(name, false) == name,
        shown_name(dir + seq!['/'] + name, false) == name,
        shown_name(dir + seq!['/'] + seq!['.', '.'], false) == dir + seq!['/'] + seq!['.', '.'],
{
    crate::chd_disk::law_file_names(dir, name);
}

} // verus!
