//! The sidebar: what its menus hold, what an entry does, and what its status lines
//! say. Drawing is left to the toolkit.
use vstd::prelude::*;
use crate::chd_disk::is_chd_on;
use crate::config::CpuModel;
use crate::config::MachineProfile;
use crate::config::MachineSection;
use crate::config::NetMode;
use crate::config::ScsiDeviceConfig;
use crate::config::VALID_BANK_SIZES;
use crate::machine_config::MachineConfig;
use crate::scsi_menu::show_name;
use crate::scsi_menu::ScsiAction;
use crate::text::chars_of;
use crate::text::owned;
use crate::text::push_decimal;
use crate::text::same_text;
use crate::text::trim_chars;

verus! {

// ---------------------------------------------------------------------------
// Entries
// ---------------------------------------------------------------------------

/// What an entry asks for.
#[derive(Clone, Copy, Debug, PartialEq, Eq, Structural)]
pub enum Action {
    Nothing,
    NewMachine,
    /// Switch to the machine at this place in the list.
    SwitchTo(usize),
    RenameCurrent,
    DeleteCurrent,
    ImportToml,
    ExportToml,
    PrepareForPremiere,
    GrantFolder,
    /// Reveal or revoke the folder at this place in the list.
    Folder(usize),
    Quit,
    Start,
    Stop,
    Reset,
    ResetNvram,
    SetCpu(CpuModel),
    SaveState,
    RestoreState,
    Screenshot,
    SerialConsole,
    /// Distribute this many megabytes over the banks.
    SetRam(u32),
    /// Give a bank this many megabytes.
    SetBank(usize, u32),
    ToggleFullscreen,
    UiScale,
    NearestInteger,
    Stretch,
    KeepAspect,
    VmScale,
    TestCamera,
    HelpInfo,
    NfsHelp,
    Ultra64Help,
    Licenses,
    Privacy,
    /// Capture the mouse and the keyboard.
    Capture,
    /// Open the link at this place in the list.
    OpenLink(usize),
}

/// How an entry is drawn.
#[derive(Clone, Copy, Debug, PartialEq, Eq, Structural)]
pub enum ItemKind {
    Button,
    /// A label that is marked if it is selected.
    Selectable,
    Radio,
    Checkbox,
    /// The head of a menu; its entries follow, one step deeper.
    Submenu,
    Strong,
    Plain,
    Weak,
    Warn,
    Good,
    Separator,
    /// A text field with a button.
    Field,
    Slider,
    /// A folder with its state and the buttons to reveal and revoke it.
    FolderRow,
    /// A line with a link.
    Link,
}

/// An entry of a menu.
#[derive(Clone, Debug, PartialEq, Eq)]
pub struct Item {
    pub kind: ItemKind,
    pub label: String,
    pub enabled: bool,
    pub selected: bool,
    pub depth: u8,
    pub action: Action,
}

/// An entry as plain values.
pub struct ItemView {
    pub kind: ItemKind,
    pub label: Seq<char>,
    pub enabled: bool,
    pub selected: bool,
    pub depth: u8,
    pub action: Action,
}

impl View for Item {
    type V = ItemView;

    open spec fn view(&self) -> ItemView {
        ItemView {
            kind: self.kind,
            label: self.label@,
            enabled: self.enabled,
            selected: self.selected,
            depth: self.depth,
            action: self.action,
        }
    }
}

/// The entries of a menu as plain values.
pub open spec fn items(v: Seq<Item>) -> Seq<ItemView> {
    Seq::new(v.len(), |i: int| v[i]@)
}

/// A button.
pub open spec fn button(label: Seq<char>, enabled: bool, action: Action) -> ItemView {
    ItemView { kind: ItemKind::Button, label, enabled, selected: false, depth: 0, action }
}

/// A line that does nothing.
pub open spec fn line(kind: ItemKind, label: Seq<char>) -> ItemView {
    ItemView { kind, label, enabled: true, selected: false, depth: 0, action: Action::Nothing }
}

fn put(
    out: &mut Vec<Item>,
    kind: ItemKind,
    label: &str,
    enabled: bool,
    selected: bool,
    depth: u8,
    action: Action,
)
    ensures
        items(final(out)@) == items(old(out)@).push(
            (ItemView { kind, label: label@, enabled, selected, depth, action }),
        ),
{
    let ghost before = out@;
    out.push(Item { kind, label: owned(label), enabled, selected, depth, action });
    proof {
        assert(items(out@) =~= items(before).push(
            ItemView { kind, label: label@, enabled, selected, depth, action },
        ));
    }
}

fn put_button(out: &mut Vec<Item>, label: &str, enabled: bool, action: Action)
    ensures
        items(final(out)@) == items(old(out)@).push(button(label@, enabled, action)),
{
    put(out, ItemKind::Button, label, enabled, false, 0, action);
}

fn put_line(out: &mut Vec<Item>, kind: ItemKind, label: &str)
    ensures
        items(final(out)@) == items(old(out)@).push(line(kind, label@)),
{
    put(out, kind, label, true, false, 0, Action::Nothing);
}

fn put_separator(out: &mut Vec<Item>)
    ensures
        items(final(out)@) == items(old(out)@).push(line(ItemKind::Separator, ""@)),
{
    put_line(out, ItemKind::Separator, "");
}

fn empty_menu() -> (r: Vec<Item>)
    ensures
        items(r@) == Seq::<ItemView>::empty(),
{
    let r: Vec<Item> = Vec::new();
    proof {
        assert(items(r@) =~= Seq::<ItemView>::empty());
    }
    r
}

// ---------------------------------------------------------------------------
// The file menu
// ---------------------------------------------------------------------------

/// What the file menu depends on.
#[derive(Clone, Debug)]
pub struct FileState {
    /// The saved machines, in order.
    pub machines: Vec<String>,
    pub active: Option<String>,
    /// A shipped build, which has no configuration files to exchange.
    pub bundled: bool,
    /// A build for the store, which is granted folders.
    pub appstore: bool,
    /// The granted folders, and whether each can be used now.
    pub folders: Vec<(String, bool)>,
}

/// A machine is the active one.
pub open spec fn is_active(active: Option<String>, name: Seq<char>) -> bool {
    active matches Some(a) && a@ == name
}

/// The entries of the first `n` machines.
pub open spec fn machine_items(s: FileState, n: int) -> Seq<ItemView>
    decreases n,
{
    if n <= 0 || n > s.machines@.len() {
        seq![]
    } else {
        let name = s.machines@[n - 1]@;
        machine_items(s, n - 1).push(
            ItemView {
                kind: ItemKind::Selectable,
                label: name,
                enabled: true,
                selected: is_active(s.active, name),
                depth: 1,
                action: Action::SwitchTo((n - 1) as usize),
            },
        )
    }
}

/// The rows of the first `n` folders.
pub open spec fn folder_items(s: FileState, n: int) -> Seq<ItemView>
    decreases n,
{
    if n <= 0 || n > s.folders@.len() {
        seq![]
    } else {
        folder_items(s, n - 1).push(
            ItemView {
                kind: ItemKind::FolderRow,
                label: s.folders@[n - 1].0@,
                enabled: true,
                selected: s.folders@[n - 1].1,
                depth: 0,
                action: Action::Folder((n - 1) as usize),
            },
        )
    }
}

/// The machines to switch to.
pub open spec fn switch_items(s: FileState) -> Seq<ItemView> {
    let head = Seq::<ItemView>::empty().push(button("New machine\u{2026}"@, true, Action::NewMachine)).push(
        line(ItemKind::Submenu, "Switch to machine"@),
    );
    let noted = if s.machines@.len() == 0 {
        head.push(
            ItemView {
                kind: ItemKind::Weak,
                label: "(no saved machines yet)"@,
                enabled: true,
                selected: false,
                depth: 1,
                action: Action::Nothing,
            },
        )
    } else {
        head
    };
    noted + machine_items(s, s.machines@.len() as int)
}

/// The entries on configuration files.
pub open spec fn toml_items() -> Seq<ItemView> {
    Seq::<ItemView>::empty().push(line(ItemKind::Separator, ""@)).push(
        button("Import iris.toml\u{2026}"@, true, Action::ImportToml),
    ).push(button("Export current to iris.toml\u{2026}"@, true, Action::ExportToml)).push(
        button("Prepare for premiere\u{2026}"@, true, Action::PrepareForPremiere),
    )
}

/// The entries on granted folders.
pub open spec fn grant_items(s: FileState) -> Seq<ItemView> {
    let head = Seq::<ItemView>::empty().push(line(ItemKind::Separator, ""@)).push(
        line(ItemKind::Strong, "Disk folder access"@),
    ).push(button("Grant a disk folder\u{2026}"@, true, Action::GrantFolder));
    let noted = if s.folders@.len() == 0 {
        head.push(line(ItemKind::Weak, "(no folders granted yet)"@))
    } else {
        head
    };
    noted + folder_items(s, s.folders@.len() as int)
}

/// The file menu.
pub open spec fn file_items(s: FileState) -> Seq<ItemView> {
    let current = switch_items(s).push(
        button("Rename current\u{2026}"@, s.active is Some, Action::RenameCurrent),
    ).push(button("Delete current machine"@, s.active is Some, Action::DeleteCurrent));
    let files = if !s.bundled {
        current + toml_items()
    } else {
        current
    };
    let folders = if s.appstore {
        files + grant_items(s)
    } else {
        files
    };
    folders.push(line(ItemKind::Separator, ""@)).push(button("Quit"@, true, Action::Quit))
}

fn put_machines(out: &mut Vec<Item>, s: &FileState)
    ensures
        items(final(out)@) == items(old(out)@) + machine_items(*s, s.machines@.len() as int),
{
    let ghost before = items(out@);
    let mut i: usize = 0;
    proof {
        assert(before + machine_items(*s, 0) =~= before);
    }
    while i < s.machines.len()
        invariant
            i <= s.machines.len(),
            items(out@) == before + machine_items(*s, i as int),
        decreases s.machines.len() - i,
    {
        let name = s.machines[i].as_str();
        let selected = match &s.active {
            Some(a) => same_text(a.as_str(), name),
            None => false,
        };
        put(out, ItemKind::Selectable, name, true, selected, 1, Action::SwitchTo(i));
        i = i + 1;
        proof {
            assert(items(out@) =~= before + machine_items(*s, i as int));
        }
    }
}

fn put_folders(out: &mut Vec<Item>, s: &FileState)
    ensures
        items(final(out)@) == items(old(out)@) + folder_items(*s, s.folders@.len() as int),
{
    let ghost before = items(out@);
    let mut i: usize = 0;
    proof {
        assert(before + folder_items(*s, 0) =~= before);
    }
    while i < s.folders.len()
        invariant
            i <= s.folders.len(),
            items(out@) == before + folder_items(*s, i as int),
        decreases s.folders.len() - i,
    {
        let folder = &s.folders[i];
        put(out, ItemKind::FolderRow, folder.0.as_str(), true, folder.1, 0, Action::Folder(i));
        i = i + 1;
        proof {
            assert(items(out@) =~= before + folder_items(*s, i as int));
        }
    }
}

/// The file menu.
pub fn file_menu(s: &FileState) -> (r: Vec<Item>)
    ensures
        items(r@) == file_items(*s),
{
    let mut out = empty_menu();
    put_button(&mut out, "New machine\u{2026}", true, Action::NewMachine);
    put_line(&mut out, ItemKind::Submenu, "Switch to machine");
    if s.machines.len() == 0 {
        put(
            &mut out,
            ItemKind::Weak,
            "(no saved machines yet)",
            true,
            false,
            1,
            Action::Nothing,
        );
    }
    put_machines(&mut out, s);
    put_button(&mut out, "Rename current\u{2026}", s.active.is_some(), Action::RenameCurrent);
    put_button(&mut out, "Delete current machine", s.active.is_some(), Action::DeleteCurrent);
    if !s.bundled {
        let ghost before = items(out@);
        put_separator(&mut out);
        put_button(&mut out, "Import iris.toml\u{2026}", true, Action::ImportToml);
        put_button(&mut out, "Export current to iris.toml\u{2026}", true, Action::ExportToml);
        put_button(&mut out, "Prepare for premiere\u{2026}", true, Action::PrepareForPremiere);
        proof {
            assert(items(out@) =~= before + toml_items());
        }
    }
    if s.appstore {
        let ghost before = items(out@);
        put_separator(&mut out);
        put_line(&mut out, ItemKind::Strong, "Disk folder access");
        put_button(&mut out, "Grant a disk folder\u{2026}", true, Action::GrantFolder);
        if s.folders.len() == 0 {
            put_line(&mut out, ItemKind::Weak, "(no folders granted yet)");
        }
        put_folders(&mut out, s);
        proof {
            assert(items(out@) =~= before + grant_items(*s));
        }
    }
    put_separator(&mut out);
    put_button(&mut out, "Quit", true, Action::Quit);
    out
}

// ---------------------------------------------------------------------------
// The machine menu
// ---------------------------------------------------------------------------

/// A choice of processor.
pub open spec fn cpu_item(c: CpuModel, configured: CpuModel, running: bool) -> ItemView {
    ItemView {
        kind: ItemKind::Radio,
        label: c.name(),
        enabled: !running,
        selected: configured == c,
        depth: 0,
        action: Action::SetCpu(c),
    }
}

/// The line on the processor that the guest runs on, if it is known.
pub open spec fn running_cpu(started: Option<CpuModel>, configured: CpuModel) -> Seq<ItemView> {
    match started {
        Some(c) => if c != configured {
            seq![line(ItemKind::Warn, "Running: "@ + c.name() + " (Stop to apply edits)"@)]
        } else {
            seq![line(ItemKind::Weak, "Running: "@ + c.name())]
        },
        None => seq![],
    }
}

/// The machine menu. The processor is chosen when the machine is built, so that a
/// change while it runs waits for the next start.
pub open spec fn machine_items_of(
    running: bool,
    configured: CpuModel,
    started: Option<CpuModel>,
) -> Seq<ItemView> {
    let controls = Seq::<ItemView>::empty().push(button("Start"@, !running, Action::Start)).push(
        button("Stop"@, running, Action::Stop),
    ).push(button("Reset"@, running, Action::Reset)).push(
        button("Reset NVRAM (fresh PRAM)"@, !running, Action::ResetNvram),
    ).push(line(ItemKind::Separator, ""@)).push(
        line(ItemKind::Strong, "Processor: "@ + configured.name()),
    ).push(cpu_item(CpuModel::R4400, configured, running)).push(
        cpu_item(CpuModel::R5000, configured, running),
    );
    let noted = if running {
        (controls + running_cpu(started, configured)).push(
            line(ItemKind::Weak, "CPU changes apply after Stop \u{2192} Start"@),
        )
    } else {
        controls
    };
    noted.push(line(ItemKind::Separator, ""@)).push(
        ItemView {
            kind: ItemKind::Field,
            label: "Save state:"@,
            enabled: true,
            selected: false,
            depth: 0,
            action: Action::SaveState,
        },
    ).push(
        ItemView {
            kind: ItemKind::Field,
            label: "Restore state:"@,
            enabled: true,
            selected: false,
            depth: 0,
            action: Action::RestoreState,
        },
    ).push(line(ItemKind::Separator, ""@)).push(
        button("Screenshot\u{2026}"@, true, Action::Screenshot),
    ).push(button("Serial console\u{2026}"@, running, Action::SerialConsole))
}

fn with_text(head: &str, text: &str, tail: &str) -> (r: String)
    ensures
        r@ == head@ + text@ + tail@,
{
    let mut s = owned(head);
    s.append(text);
    s.append(tail);
    s
}

fn put_cpu(out: &mut Vec<Item>, c: CpuModel, configured: CpuModel, running: bool)
    ensures
        items(final(out)@) == items(old(out)@).push(cpu_item(c, configured, running)),
{
    put(out, ItemKind::Radio, c.label(), !running, configured == c, 0, Action::SetCpu(c));
}

/// The machine menu.
pub fn machine_menu(running: bool, configured: CpuModel, started: Option<CpuModel>) -> (r: Vec<
    Item,
>)
    ensures
        items(r@) == machine_items_of(running, configured, started),
{
    let mut out = empty_menu();
    put_button(&mut out, "Start", !running, Action::Start);
    put_button(&mut out, "Stop", running, Action::Stop);
    put_button(&mut out, "Reset", running, Action::Reset);
    put_button(&mut out, "Reset NVRAM (fresh PRAM)", !running, Action::ResetNvram);
    put_separator(&mut out);
    let mut processor = owned("Processor: ");
    processor.append(configured.label());
    put_line(&mut out, ItemKind::Strong, processor.as_str());
    put_cpu(&mut out, CpuModel::R4400, configured, running);
    put_cpu(&mut out, CpuModel::R5000, configured, running);
    if running {
        let ghost before = items(out@);
        match started {
            Some(c) => {
                if c != configured {
                    let text = with_text("Running: ", c.label(), " (Stop to apply edits)");
                    put_line(&mut out, ItemKind::Warn, text.as_str());
                } else {
                    let mut text = owned("Running: ");
                    text.append(c.label());
                    put_line(&mut out, ItemKind::Weak, text.as_str());
                }
            },
            None => {},
        }
        proof {
            assert(items(out@) =~= before + running_cpu(started, configured));
        }
        put_line(&mut out, ItemKind::Weak, "CPU changes apply after Stop \u{2192} Start");
    }
    put_separator(&mut out);
    put(&mut out, ItemKind::Field, "Save state:", true, false, 0, Action::SaveState);
    put(&mut out, ItemKind::Field, "Restore state:", true, false, 0, Action::RestoreState);
    put_separator(&mut out);
    put_button(&mut out, "Screenshot\u{2026}", true, Action::Screenshot);
    put_button(&mut out, "Serial console\u{2026}", running, Action::SerialConsole);
    out
}

// ---------------------------------------------------------------------------
// The memory menu
// ---------------------------------------------------------------------------

/// What the memory menu depends on.
#[derive(Clone, Debug)]
pub struct MemoryState {
    pub running: bool,
    pub banks: [u32; 4],
    /// The configured memory in words.
    pub summary: String,
    /// The memory that the guest was started with, and the same in words.
    pub started: Option<([u32; 4], String)>,
    /// The sizes that are offered, in megabytes.
    pub presets: Vec<u32>,
}

/// A size as an entry says it.
pub open spec fn megabyte_text(mb: u32) -> Seq<char> {
    crate::text::decimal(mb as nat) + " MB"@
}

/// The line on the memory that the guest runs with, if it is known.
pub open spec fn running_ram(s: MemoryState) -> Seq<ItemView> {
    match s.started {
        Some((banks, text)) => if banks@ != s.banks@ {
            seq![line(ItemKind::Warn, "Running: "@ + text@ + " (Stop to apply edits)"@)]
        } else {
            seq![line(ItemKind::Weak, "Running: "@ + text@)]
        },
        None => seq![],
    }
}

/// The first `n` sizes.
pub open spec fn preset_items(s: MemoryState, n: int) -> Seq<ItemView>
    decreases n,
{
    if n <= 0 || n > s.presets@.len() {
        seq![]
    } else {
        let mb = s.presets@[n - 1];
        preset_items(s, n - 1).push(button(megabyte_text(mb), !s.running, Action::SetRam(mb)))
    }
}

/// The first `n` sizes that a bank can have.
pub open spec fn size_items(bank: usize, running: bool, n: int) -> Seq<ItemView>
    decreases n,
{
    if n <= 0 || n > crate::config::VALID_BANK_SIZES@.len() {
        seq![]
    } else {
        let mb = crate::config::VALID_BANK_SIZES@[n - 1];
        size_items(bank, running, n - 1).push(
            ItemView {
                kind: ItemKind::Button,
                label: megabyte_text(mb),
                enabled: !running,
                selected: false,
                depth: 1,
                action: Action::SetBank(bank, mb),
            },
        )
    }
}

/// The menus of the first `n` banks.
pub open spec fn bank_items(s: MemoryState, n: int) -> Seq<ItemView>
    decreases n,
{
    if n <= 0 || n > 4 {
        seq![]
    } else {
        let head = "Bank "@ + crate::text::decimal((n - 1) as nat) + ": "@ + megabyte_text(
            s.banks@[n - 1],
        );
        bank_items(s, n - 1).push(line(ItemKind::Submenu, head)) + size_items(
            (n - 1) as usize,
            s.running,
            crate::config::VALID_BANK_SIZES@.len() as int,
        )
    }
}

/// The memory menu.
pub open spec fn memory_items(s: MemoryState) -> Seq<ItemView> {
    let head = Seq::<ItemView>::empty().push(line(ItemKind::Strong, "Config: "@ + s.summary@));
    let noted = if s.running {
        (head + running_ram(s)).push(
            line(ItemKind::Weak, "RAM changes apply after Stop \u{2192} Start"@),
        )
    } else {
        head.push(line(ItemKind::Weak, "Applied at next Start"@))
    };
    (noted.push(line(ItemKind::Separator, ""@)).push(
        line(ItemKind::Plain, "Quick presets (auto-distributed):"@),
    ) + preset_items(s, s.presets@.len() as int)).push(line(ItemKind::Separator, ""@)).push(
        line(ItemKind::Plain, "Per-bank (advanced):"@),
    ) + bank_items(s, 4)
}

fn same_banks(a: &[u32; 4], b: &[u32; 4]) -> (r: bool)
    ensures
        r == (a@ == b@),
{
    let r = a[0] == b[0] && a[1] == b[1] && a[2] == b[2] && a[3] == b[3];
    proof {
        if r {
            assert(a@ =~= b@);
        }
    }
    r
}

fn megabyte_label(mb: u32) -> (r: String)
    ensures
        r@ == megabyte_text(mb),
{
    let mut s = String::new();
    push_decimal(&mut s, mb as u64);
    s.append(" MB");
    proof {
        assert(s@ =~= megabyte_text(mb));
    }
    s
}

fn put_presets(out: &mut Vec<Item>, s: &MemoryState)
    ensures
        items(final(out)@) == items(old(out)@) + preset_items(*s, s.presets@.len() as int),
{
    let ghost before = items(out@);
    let mut i: usize = 0;
    proof {
        assert(before + preset_items(*s, 0) =~= before);
    }
    while i < s.presets.len()
        invariant
            i <= s.presets.len(),
            items(out@) == before + preset_items(*s, i as int),
        decreases s.presets.len() - i,
    {
        let mb: u32 = s.presets[i];
        put_button(out, megabyte_label(mb).as_str(), !s.running, Action::SetRam(mb));
        i = i + 1;
        proof {
            assert(items(out@) =~= before + preset_items(*s, i as int));
        }
    }
}

fn put_sizes(out: &mut Vec<Item>, bank: usize, running: bool)
    ensures
        items(final(out)@) == items(old(out)@) + size_items(
            bank,
            running,
            crate::config::VALID_BANK_SIZES@.len() as int,
        ),
{
    let ghost before = items(out@);
    let mut i: usize = 0;
    proof {
        assert(before + size_items(bank, running, 0) =~= before);
    }
    while i < VALID_BANK_SIZES.len()
        invariant
            i <= VALID_BANK_SIZES@.len(),
            items(out@) == before + size_items(bank, running, i as int),
        decreases VALID_BANK_SIZES@.len() - i,
    {
        let mb: u32 = VALID_BANK_SIZES[i];
        put(
            out,
            ItemKind::Button,
            megabyte_label(mb).as_str(),
            !running,
            false,
            1,
            Action::SetBank(bank, mb),
        );
        i = i + 1;
        proof {
            assert(items(out@) =~= before + size_items(bank, running, i as int));
        }
    }
}

fn put_banks(out: &mut Vec<Item>, s: &MemoryState)
    ensures
        items(final(out)@) == items(old(out)@) + bank_items(*s, 4),
{
    let ghost before = items(out@);
    let mut i: usize = 0;
    proof {
        assert(before + bank_items(*s, 0) =~= before);
    }
    while i < 4
        invariant
            i <= 4,
            items(out@) == before + bank_items(*s, i as int),
        decreases 4 - i,
    {
        let mut head = owned("Bank ");
        push_decimal(&mut head, i as u64);
        head.append(": ");
        head.append(megabyte_label(s.banks[i]).as_str());
        put_line(out, ItemKind::Submenu, head.as_str());
        put_sizes(out, i, s.running);
        i = i + 1;
        proof {
            assert(items(out@) =~= before + bank_items(*s, i as int));
        }
    }
}

/// The memory menu.
pub fn memory_menu(s: &MemoryState) -> (r: Vec<Item>)
    ensures
        items(r@) == memory_items(*s),
{
    let mut out = empty_menu();
    let mut config = owned("Config: ");
    config.append(s.summary.as_str());
    put_line(&mut out, ItemKind::Strong, config.as_str());
    if s.running {
        let ghost before = items(out@);
        match &s.started {
            Some((banks, text)) => {
                if !same_banks(banks, &s.banks) {
                    let t = with_text("Running: ", text.as_str(), " (Stop to apply edits)");
                    put_line(&mut out, ItemKind::Warn, t.as_str());
                } else {
                    let mut t = owned("Running: ");
                    t.append(text.as_str());
                    put_line(&mut out, ItemKind::Weak, t.as_str());
                }
            },
            None => {},
        }
        proof {
            assert(items(out@) =~= before + running_ram(*s));
        }
        put_line(&mut out, ItemKind::Weak, "RAM changes apply after Stop \u{2192} Start");
    } else {
        put_line(&mut out, ItemKind::Weak, "Applied at next Start");
    }
    put_separator(&mut out);
    put_line(&mut out, ItemKind::Plain, "Quick presets (auto-distributed):");
    put_presets(&mut out, s);
    put_separator(&mut out);
    put_line(&mut out, ItemKind::Plain, "Per-bank (advanced):");
    put_banks(&mut out, s);
    out
}

// ---------------------------------------------------------------------------
// The view menu
// ---------------------------------------------------------------------------

/// How the picture is fitted to the window.
#[derive(Clone, Copy, Debug, PartialEq, Eq, Structural)]
pub enum DisplayScaling {
    NearestInteger,
    Stretch,
}

/// An entry of the menu on scaling.
pub open spec fn scaling_item(
    kind: ItemKind,
    label: Seq<char>,
    enabled: bool,
    selected: bool,
    action: Action,
) -> ItemView {
    ItemView { kind, label, enabled, selected, depth: 1, action }
}

/// The view menu.
pub open spec fn view_items(fullscreen: bool, scaling: DisplayScaling, keep_aspect: bool) -> Seq<
    ItemView,
> {
    let stretch = scaling == DisplayScaling::Stretch;
    Seq::<ItemView>::empty().push(
        button(
            if fullscreen {
                "Exit fullscreen (F11)"@
            } else {
                "Fullscreen (F11)"@
            },
            true,
            Action::ToggleFullscreen,
        ),
    ).push(
        ItemView {
            kind: ItemKind::Slider,
            label: "UI scale"@,
            enabled: true,
            selected: false,
            depth: 0,
            action: Action::UiScale,
        },
    ).push(line(ItemKind::Weak, "Ctrl+= / Ctrl+- / Ctrl+0 to zoom"@)).push(
        line(ItemKind::Separator, ""@),
    ).push(line(ItemKind::Submenu, "Graphics scaling"@)).push(
        scaling_item(
            ItemKind::Selectable,
            "Nearest integer"@,
            true,
            !stretch,
            Action::NearestInteger,
        ),
    ).push(
        scaling_item(ItemKind::Selectable, "Stretch"@, true, stretch, Action::Stretch),
    ).push(
        scaling_item(
            ItemKind::Checkbox,
            "Keep aspect ratio"@,
            stretch,
            keep_aspect,
            Action::KeepAspect,
        ),
    ).push(
        ItemView {
            kind: ItemKind::Slider,
            label: "VM screen"@,
            enabled: true,
            selected: false,
            depth: 0,
            action: Action::VmScale,
        },
    ).push(
        line(
            ItemKind::Weak,
            "1\u{d7} = native pixels; \u{bc}\u{d7} steps (\u{bd}-integers crispest on Retina)"@,
        ),
    )
}

/// The view menu.
pub fn view_menu(fullscreen: bool, scaling: DisplayScaling, keep_aspect: bool) -> (r: Vec<Item>)
    ensures
        items(r@) == view_items(fullscreen, scaling, keep_aspect),
{
    let stretch = match scaling {
        DisplayScaling::Stretch => true,
        DisplayScaling::NearestInteger => false,
    };
    let mut out = empty_menu();
    if fullscreen {
        put_button(&mut out, "Exit fullscreen (F11)", true, Action::ToggleFullscreen);
    } else {
        put_button(&mut out, "Fullscreen (F11)", true, Action::ToggleFullscreen);
    }
    put(&mut out, ItemKind::Slider, "UI scale", true, false, 0, Action::UiScale);
    put_line(&mut out, ItemKind::Weak, "Ctrl+= / Ctrl+- / Ctrl+0 to zoom");
    put_separator(&mut out);
    put_line(&mut out, ItemKind::Submenu, "Graphics scaling");
    put(
        &mut out,
        ItemKind::Selectable,
        "Nearest integer",
        true,
        !stretch,
        1,
        Action::NearestInteger,
    );
    put(&mut out, ItemKind::Selectable, "Stretch", true, stretch, 1, Action::Stretch);
    put(
        &mut out,
        ItemKind::Checkbox,
        "Keep aspect ratio",
        stretch,
        keep_aspect,
        1,
        Action::KeepAspect,
    );
    put(&mut out, ItemKind::Slider, "VM screen", true, false, 0, Action::VmScale);
    put_line(
        &mut out,
        ItemKind::Weak,
        "1\u{d7} = native pixels; \u{bc}\u{d7} steps (\u{bd}-integers crispest on Retina)",
    );
    out
}

// ---------------------------------------------------------------------------
// The help menu
// ---------------------------------------------------------------------------

/// What a build was made with.
#[derive(Clone, Copy, Debug, PartialEq, Eq, Structural)]
pub struct BuildFeatures {
    pub chd: bool,
    pub camera: bool,
    pub rex_jit: bool,
    pub lightning: bool,
    pub ultra64: bool,
    pub appstore: bool,
}

/// On or off.
pub open spec fn on_off(on: bool) -> Seq<char> {
    if on {
        "on"@
    } else {
        "off"@
    }
}

/// What is said of the compiler of drawing commands: a build may have it and still be
/// told not to use it.
pub open spec fn jit_text(built: bool, turned_off: bool) -> Seq<char> {
    if !built {
        "off"@
    } else if turned_off {
        "off (sandbox)"@
    } else {
        "on"@
    }
}

/// What is said of the compiler of drawing commands.
pub fn jit_state(built: bool, turned_off: bool) -> (r: &'static str)
    ensures
        r@ == jit_text(built, turned_off),
{
    if !built {
        "off"
    } else if turned_off {
        "off (sandbox)"
    } else {
        "on"
    }
}

/// The lines on what a build was made with.
pub open spec fn feature_items(b: BuildFeatures, jit_off: bool) -> Seq<ItemView> {
    Seq::<ItemView>::empty().push(line(ItemKind::Strong, "Build features:"@)).push(
        line(ItemKind::Plain, "  chd:       "@ + on_off(b.chd)),
    ).push(line(ItemKind::Plain, "  camera:    "@ + on_off(b.camera))).push(
        line(ItemKind::Plain, "  rex-jit:   "@ + jit_text(b.rex_jit, jit_off)),
    ).push(
        line(
            ItemKind::Plain,
            "  lightning: "@ + if b.lightning {
                "on (no debug)"@
            } else {
                "off"@
            },
        ),
    ).push(line(ItemKind::Plain, "  ultra64:   "@ + on_off(b.ultra64)))
}

/// A link, and what stands before it.
#[derive(Clone, Debug)]
pub struct Link {
    pub label: String,
    pub name: String,
    pub url: String,
}

/// The names of the first `n` authors.
pub open spec fn author_items(authors: Seq<String>, n: int) -> Seq<ItemView>
    decreases n,
{
    if n <= 0 || n > authors.len() {
        seq![]
    } else {
        author_items(authors, n - 1).push(line(ItemKind::Plain, authors[n - 1]@))
    }
}

/// The first `n` links.
pub open spec fn link_items(links: Seq<Link>, n: int) -> Seq<ItemView>
    decreases n,
{
    if n <= 0 || n > links.len() {
        seq![]
    } else {
        link_items(links, n - 1).push(
            ItemView {
                kind: ItemKind::Link,
                label: links[n - 1].label@,
                enabled: true,
                selected: false,
                depth: 0,
                action: Action::OpenLink((n - 1) as usize),
            },
        )
    }
}

/// The authors and the links.
pub open spec fn credit_items(authors: Seq<String>, links: Seq<Link>) -> Seq<ItemView> {
    (Seq::<ItemView>::empty().push(line(ItemKind::Strong, "Authors"@)) + author_items(
        authors,
        authors.len() as int,
    )).push(line(ItemKind::Separator, ""@)) + link_items(links, links.len() as int)
}

/// The help menu.
pub open spec fn help_items(
    running: bool,
    version: Seq<char>,
    authors: Seq<String>,
    links: Seq<Link>,
    b: BuildFeatures,
    jit_off: bool,
) -> Seq<ItemView> {
    let head = Seq::<ItemView>::empty().push(
        line(ItemKind::Strong, "IRIS \u{2014} SGI Indy (MIPS R4400) Emulator"@),
    ).push(line(ItemKind::Plain, "Version "@ + version)).push(line(ItemKind::Separator, ""@)).push(
        line(ItemKind::Strong, "Diagnostics"@),
    ).push(button("\u{1f4f7} Test Camera\u{2026}"@, running, Action::TestCamera)).push(
        button("Serial console\u{2026}"@, running, Action::SerialConsole),
    ).push(
        button("\u{2139} How camera & networking work\u{2026}"@, true, Action::HelpInfo),
    ).push(
        button("\u{1f4c2} Mount the shared folder in IRIX\u{2026}"@, true, Action::NfsHelp),
    );
    let board = if b.ultra64 && !b.appstore {
        head.push(
            button(
                "\u{1f3ae} N64 development board (Ultra64)\u{2026}"@,
                true,
                Action::Ultra64Help,
            ),
        )
    } else {
        head
    };
    board.push(line(ItemKind::Separator, ""@)).push(line(ItemKind::Strong, "Legal"@)).push(
        button("Licenses\u{2026}"@, true, Action::Licenses),
    ).push(button("Privacy policy\u{2026}"@, true, Action::Privacy)).push(
        line(ItemKind::Separator, ""@),
    ) + credit_items(authors, links).push(line(ItemKind::Separator, ""@)) + feature_items(b, jit_off)
}

fn put_credits(out: &mut Vec<Item>, authors: &Vec<String>, links: &Vec<Link>)
    ensures
        items(final(out)@) == items(old(out)@) + credit_items(authors@, links@),
{
    let ghost before = items(out@);
    put_line(out, ItemKind::Strong, "Authors");
    let ghost head = items(out@);
    let mut i: usize = 0;
    proof {
        assert(head + author_items(authors@, 0) =~= head);
    }
    while i < authors.len()
        invariant
            i <= authors.len(),
            items(out@) == head + author_items(authors@, i as int),
        decreases authors.len() - i,
    {
        put_line(out, ItemKind::Plain, authors[i].as_str());
        i = i + 1;
        proof {
            assert(items(out@) =~= head + author_items(authors@, i as int));
        }
    }
    put_separator(out);
    let ghost named = items(out@);
    let mut k: usize = 0;
    proof {
        assert(named + link_items(links@, 0) =~= named);
    }
    while k < links.len()
        invariant
            k <= links.len(),
            items(out@) == named + link_items(links@, k as int),
        decreases links.len() - k,
    {
        put(out, ItemKind::Link, links[k].label.as_str(), true, false, 0, Action::OpenLink(k));
        k = k + 1;
        proof {
            assert(items(out@) =~= named + link_items(links@, k as int));
        }
    }
    proof {
        assert(items(out@) =~= before + credit_items(authors@, links@));
    }
}

fn put_feature(out: &mut Vec<Item>, name: &str, state: &str)
    ensures
        items(final(out)@) == items(old(out)@).push(line(ItemKind::Plain, name@ + state@)),
{
    let mut s = owned(name);
    s.append(state);
    put_line(out, ItemKind::Plain, s.as_str());
}

fn on_off_text(on: bool) -> (r: &'static str)
    ensures
        r@ == on_off(on),
{
    if on {
        "on"
    } else {
        "off"
    }
}

/// The help menu.
pub fn help_menu(
    running: bool,
    version: &str,
    authors: &Vec<String>,
    links: &Vec<Link>,
    b: BuildFeatures,
    jit_off: bool,
) -> (r: Vec<Item>)
    ensures
        items(r@) == help_items(running, version@, authors@, links@, b, jit_off),
{
    let mut out = empty_menu();
    put_line(&mut out, ItemKind::Strong, "IRIS \u{2014} SGI Indy (MIPS R4400) Emulator");
    put_feature(&mut out, "Version ", version);
    put_separator(&mut out);
    put_line(&mut out, ItemKind::Strong, "Diagnostics");
    put_button(&mut out, "\u{1f4f7} Test Camera\u{2026}", running, Action::TestCamera);
    put_button(&mut out, "Serial console\u{2026}", running, Action::SerialConsole);
    put_button(
        &mut out,
        "\u{2139} How camera & networking work\u{2026}",
        true,
        Action::HelpInfo,
    );
    put_button(
        &mut out,
        "\u{1f4c2} Mount the shared folder in IRIX\u{2026}",
        true,
        Action::NfsHelp,
    );
    if b.ultra64 && !b.appstore {
        put_button(
            &mut out,
            "\u{1f3ae} N64 development board (Ultra64)\u{2026}",
            true,
            Action::Ultra64Help,
        );
    }
    put_separator(&mut out);
    put_line(&mut out, ItemKind::Strong, "Legal");
    put_button(&mut out, "Licenses\u{2026}", true, Action::Licenses);
    put_button(&mut out, "Privacy policy\u{2026}", true, Action::Privacy);
    put_separator(&mut out);
    let ghost legal = items(out@);
    put_credits(&mut out, authors, links);
    put_separator(&mut out);
    let ghost before = items(out@);
    proof {
        assert(before =~= legal + credit_items(authors@, links@).push(
            line(ItemKind::Separator, ""@),
        ));
    }
    put_line(&mut out, ItemKind::Strong, "Build features:");
    put_feature(&mut out, "  chd:       ", on_off_text(b.chd));
    put_feature(&mut out, "  camera:    ", on_off_text(b.camera));
    put_feature(&mut out, "  rex-jit:   ", jit_state(b.rex_jit, jit_off));
    if b.lightning {
        put_feature(&mut out, "  lightning: ", "on (no debug)");
    } else {
        put_feature(&mut out, "  lightning: ", "off");
    }
    put_feature(&mut out, "  ultra64:   ", on_off_text(b.ultra64));
    proof {
        assert(items(out@) =~= before + feature_items(b, jit_off));
    }
    out
}

/// What is shown while the pointer rests on an entry. `help` says that the entry stands
/// in the help menu; `nvram` is the full path of the machine's NVRAM.
pub open spec fn hover_of(action: Action, enabled: bool, help: bool, nvram: Seq<char>) -> Option<
    Seq<char>,
> {
    if enabled {
        match action {
            Action::GrantFolder => Some("Pick the folder your disk images live in. Grants read/write to everything inside (disk images, CHD diffs, an NFS shared subfolder) so changes can be synced back into the disk."@),
            Action::TestCamera => Some("Preview the host camera used for the emulated IndyCam"@),
            Action::NfsHelp => Some("The exact mount command for the NFS share"@),
            Action::Ultra64Help => Some("How to set up the N64 devkit and run ROMs with gload"@),
            Action::Licenses => Some("BSD 3-Clause (IRIS, and the CHD backend when built in)"@),
            Action::ResetNvram => Some(
                "Restore this machine's NVRAM to defaults and assign a fresh Ethernet MAC.\n"@
                    + nvram,
            ),
            Action::SerialConsole => Some(
                if help {
                    "Connect to the emulator's loopback serial server (127.0.0.1:8881)"@
                } else {
                    "View the IRIX serial console (ttyd1) over the loopback serial server"@
                },
            ),
            _ => None,
        }
    } else {
        match action {
            Action::RenameCurrent => Some("No active machine"@),
            Action::SetRam(_) => Some("Stop the VM to change RAM"@),
            Action::SetBank(_, _) => Some("Stop the VM to change RAM"@),
            Action::TestCamera => Some("Start a machine first"@),
            Action::SerialConsole => if help {
                Some("Start a machine first"@)
            } else {
                None
            },
            _ => None,
        }
    }
}

/// What is shown while the pointer rests on an entry, if anything is.
pub fn hover_text(action: Action, enabled: bool, help: bool, nvram: &str) -> (r: Option<String>)
    ensures
        crate::text::opt_text(r) == hover_of(action, enabled, help, nvram@),
{
    if enabled {
        match action {
            Action::GrantFolder => Some(owned("Pick the folder your disk images live in. Grants read/write to everything inside (disk images, CHD diffs, an NFS shared subfolder) so changes can be synced back into the disk.")),
            Action::TestCamera => Some(owned("Preview the host camera used for the emulated IndyCam")),
            Action::NfsHelp => Some(owned("The exact mount command for the NFS share")),
            Action::Ultra64Help => Some(owned("How to set up the N64 devkit and run ROMs with gload")),
            Action::Licenses => Some(owned("BSD 3-Clause (IRIS, and the CHD backend when built in)")),
            Action::ResetNvram => {
                let mut s = owned(
                    "Restore this machine's NVRAM to defaults and assign a fresh Ethernet MAC.\n",
                );
                s.append(nvram);
                Some(s)
            },
            Action::SerialConsole => {
                if help {
                    Some(owned("Connect to the emulator's loopback serial server (127.0.0.1:8881)"))
                } else {
                    Some(
                        owned("View the IRIX serial console (ttyd1) over the loopback serial server"),
                    )
                }
            },
            _ => None,
        }
    } else {
        match action {
            Action::RenameCurrent => Some(owned("No active machine")),
            Action::SetRam(_) => Some(owned("Stop the VM to change RAM")),
            Action::SetBank(_, _) => Some(owned("Stop the VM to change RAM")),
            Action::TestCamera => Some(owned("Start a machine first")),
            Action::SerialConsole => {
                if help {
                    Some(owned("Start a machine first"))
                } else {
                    None
                }
            },
            _ => None,
        }
    }
}

// ---------------------------------------------------------------------------
// What entries do
// ---------------------------------------------------------------------------

/// An entry that changes what the next machine is built with.
pub open spec fn changes_hardware(a: Action) -> bool {
    a is SetCpu || a is SetRam || a is SetBank
}

/// No entry that changes the hardware can be picked.
pub open spec fn hardware_is_locked(v: Seq<ItemView>) -> bool {
    forall|i: int| 0 <= i < v.len() && changes_hardware((#[trigger] v[i]).action) ==> !v[i].enabled
}

proof fn lemma_presets_locked(s: MemoryState, n: int)
    requires
        s.running,
    ensures
        hardware_is_locked(preset_items(s, n)),
    decreases n,
{
    if 0 < n <= s.presets@.len() {
        lemma_presets_locked(s, n - 1);
    }
}

proof fn lemma_sizes_locked(bank: usize, n: int)
    ensures
        hardware_is_locked(size_items(bank, true, n)),
    decreases n,
{
    if 0 < n <= crate::config::VALID_BANK_SIZES@.len() {
        lemma_sizes_locked(bank, n - 1);
    }
}

proof fn lemma_banks_locked(s: MemoryState, n: int)
    requires
        s.running,
    ensures
        hardware_is_locked(bank_items(s, n)),
    decreases n,
{
    if 0 < n <= 4 {
        lemma_banks_locked(s, n - 1);
        lemma_sizes_locked((n - 1) as usize, crate::config::VALID_BANK_SIZES@.len() as int);
    }
}

/// While a machine runs, neither its memory nor its processor can be changed.
pub proof fn law_running_machines_keep_their_hardware(
    s: MemoryState,
    configured: CpuModel,
    started: Option<CpuModel>,
)
    requires
        s.running,
    ensures
        hardware_is_locked(memory_items(s)),
        hardware_is_locked(machine_items_of(true, configured, started)),
{
    lemma_presets_locked(s, s.presets@.len() as int);
    lemma_banks_locked(s, 4);
    let v = memory_items(s);
    let banks = bank_items(s, 4);
    let front = v.take(v.len() - banks.len());
    assert(v =~= front + banks);
    let p = preset_items(s, s.presets@.len() as int);
    assert(hardware_is_locked(running_ram(s)));
    assert forall|i: int| 0 <= i < front.len() && changes_hardware(
        (#[trigger] front[i]).action,
    ) implies !front[i].enabled by {
        let start = front.len() - 2 - p.len();
        if start <= i < front.len() - 2 {
            assert(front[i] == p[i - start]);
        }
    }
}

/// What the emulator is told.
#[derive(Clone, Copy, Debug, PartialEq, Eq, Structural)]
pub enum Command {
    StartEmulator,
    /// Stop, and fold overlays back first where that is due.
    RequestStop,
    /// Stop at once.
    SendStop,
    /// Save the machine's configuration.
    FlushMachine,
    CloseWindow,
}

/// What the emulator is told on an entry. `dirty` says that the configuration has
/// changes that are not saved.
pub open spec fn commands_of(action: Action, dirty: bool) -> Seq<Command> {
    match action {
        Action::Start => seq![Command::StartEmulator],
        Action::Stop => seq![Command::RequestStop],
        Action::Reset => seq![Command::SendStop, Command::StartEmulator],
        Action::Quit => if dirty {
            seq![Command::FlushMachine, Command::CloseWindow]
        } else {
            seq![Command::CloseWindow]
        },
        _ => seq![],
    }
}

/// What the emulator is told on an entry, in order.
pub fn commands(action: Action, dirty: bool) -> (r: Vec<Command>)
    ensures
        r@ == commands_of(action, dirty),
{
    let mut out: Vec<Command> = Vec::new();
    match action {
        Action::Start => {
            out.push(Command::StartEmulator);
        },
        Action::Stop => {
            out.push(Command::RequestStop);
        },
        Action::Reset => {
            out.push(Command::SendStop);
            out.push(Command::StartEmulator);
        },
        Action::Quit => {
            if dirty {
                out.push(Command::FlushMachine);
            }
            out.push(Command::CloseWindow);
        },
        _ => {},
    }
    proof {
        assert(out@ =~= commands_of(action, dirty));
    }
    out
}

/// The machines without one of them.
pub open spec fn without(machines: Seq<Seq<char>>, name: Seq<char>) -> Seq<Seq<char>>
    decreases machines.len(),
{
    if machines.len() == 0 {
        seq![]
    } else if machines.last() == name {
        without(machines.drop_last(), name)
    } else {
        without(machines.drop_last(), name).push(machines.last())
    }
}

/// What follows the deletion of the active machine.
#[derive(Clone, Debug, PartialEq, Eq)]
pub struct Deletion {
    pub removed: String,
    /// The machines that are left.
    pub machines: Vec<String>,
    /// The first of them, which becomes the active one. With none left the
    /// configuration is the default one, and a new machine is asked for.
    pub next: Option<String>,
    pub toast: String,
}

/// Deletes the active machine; none if there is none.
pub fn delete_current(machines: &Vec<String>, active: &Option<String>) -> (r: Option<Deletion>)
    ensures
        match r {
            Some(d) => {
                &&& active matches Some(name) && {
                    &&& d.removed@ == name@
                    &&& crate::text::texts(d.machines@) == without(
                        crate::text::texts(machines@),
                        name@,
                    )
                    &&& d.toast@ == "deleted '"@ + name@ + "'"@
                }
                &&& match d.next {
                    Some(n) => d.machines@.len() > 0 && n@ == d.machines@[0]@,
                    None => d.machines@.len() == 0,
                }
            },
            None => active is None,
        },
{
    let name = match active {
        Some(name) => name,
        None => {
            return None;
        },
    };
    let mut left: Vec<String> = Vec::new();
    let ghost all = crate::text::texts(machines@);
    proof {
        assert(crate::text::texts(left@) =~= without(all.take(0), name@));
    }
    let mut i: usize = 0;
    while i < machines.len()
        invariant
            i <= machines.len(),
            all == crate::text::texts(machines@),
            crate::text::texts(left@) == without(all.take(i as int), name@),
        decreases machines.len() - i,
    {
        proof {
            assert(all.take(i + 1).drop_last() =~= all.take(i as int));
            assert(all.take(i + 1).last() == machines@[i as int]@);
        }
        let ghost before = left@;
        if !same_text(machines[i].as_str(), name.as_str()) {
            left.push(machines[i].clone());
            proof {
                assert(crate::text::texts(left@) =~= crate::text::texts(before).push(
                    machines@[i as int]@,
                ));
            }
        }
        i = i + 1;
    }
    proof {
        assert(all.take(i as int) =~= all);
    }
    let next = if left.len() > 0 {
        Some(left[0].clone())
    } else {
        None
    };
    let toast = with_text("deleted '", name.as_str(), "'");
    Some(Deletion { removed: name.clone(), machines: left, next, toast })
}

/// The deleted machine is gone, and no other is.
pub proof fn law_deletion_removes_one_name(
    machines: Seq<Seq<char>>,
    name: Seq<char>,
    other: Seq<char>,
)
    ensures
        without(machines, name).contains(other) == (machines.contains(other) && other != name),
    decreases machines.len(),
{
    if machines.len() > 0 {
        let rest = machines.drop_last();
        law_deletion_removes_one_name(rest, name, other);
        let kept = without(rest, name);
        assert(machines =~= rest.push(machines.last()));
        if machines.contains(other) {
            let i = choose|i: int| 0 <= i < machines.len() && machines[i] == other;
            if i < rest.len() {
                assert(rest[i] == other);
            }
        }
        if rest.contains(other) {
            let i = choose|i: int| 0 <= i < rest.len() && rest[i] == other;
            assert(machines[i] == other);
        }
        assert(machines[machines.len() - 1] == machines.last());
        if machines.last() != name {
            let out = kept.push(machines.last());
            if out.contains(other) {
                let i = choose|i: int| 0 <= i < out.len() && out[i] == other;
                if i < kept.len() {
                    assert(kept[i] == other);
                }
            }
            if kept.contains(other) {
                let i = choose|i: int| 0 <= i < kept.len() && kept[i] == other;
                assert(out[i] == other);
            }
            assert(out[kept.len() as int] == machines.last());
        }
    }
}

/// What is said when another processor was picked.
pub fn cpu_toast(c: CpuModel) -> (r: String)
    ensures
        r@ == c.name() + " \u{2014} applies at next Start"@,
{
    let mut s = owned(c.label());
    s.append(" \u{2014} applies at next Start");
    s
}

/// The sizes of the banks as a list.
pub open spec fn banks_text(banks: Seq<u32>) -> Seq<char> {
    "["@ + crate::text::decimal(banks[0] as nat) + ", "@ + crate::text::decimal(banks[1] as nat)
        + ", "@ + crate::text::decimal(banks[2] as nat) + ", "@ + crate::text::decimal(
        banks[3] as nat,
    ) + "]"@
}

/// What is said when memory was distributed over the banks.
pub fn ram_toast(summary: &str, banks: &[u32; 4]) -> (r: String)
    ensures
        r@ == "RAM set to "@ + summary@ + " ("@ + banks_text(banks@) + ")"@,
{
    let mut s = owned("RAM set to ");
    s.append(summary);
    s.append(" (");
    let ghost before = s@;
    s.append("[");
    push_decimal(&mut s, banks[0] as u64);
    s.append(", ");
    push_decimal(&mut s, banks[1] as u64);
    s.append(", ");
    push_decimal(&mut s, banks[2] as u64);
    s.append(", ");
    push_decimal(&mut s, banks[3] as u64);
    s.append("]");
    proof {
        assert(s@ =~= before + banks_text(banks@));
    }
    s.append(")");
    s
}

/// What is said of an edit, if it is said at all.
pub struct Edit {
    /// The configuration was changed, and is not saved yet.
    pub changed: bool,
    pub toast: Option<String>,
}

/// The processor after an entry.
pub open spec fn cpu_after(action: Action, cpu: CpuModel) -> CpuModel {
    match action {
        Action::SetCpu(c) => c,
        _ => cpu,
    }
}

/// The banks after an entry; `spread` is the memory that was picked, as it is distributed.
pub open spec fn banks_after(action: Action, banks: Seq<u32>, spread: Seq<u32>) -> Seq<u32> {
    match action {
        Action::SetRam(_) => spread,
        Action::SetBank(i, mb) => if i < 4 {
            banks.update(i as int, mb)
        } else {
            banks
        },
        _ => banks,
    }
}

/// What an edit does: a processor that is picked is the configured one, a size for a bank is
/// that bank's and no other's, and a size for the whole memory is spread over the banks. An entry
/// on one of these leaves the others alone.
pub proof fn law_what_edits_do(
    c: CpuModel,
    cpu: CpuModel,
    bank: usize,
    other: int,
    mb: u32,
    banks: Seq<u32>,
    spread: Seq<u32>,
)
    requires
        banks.len() == 4,
        bank < 4,
        0 <= other < 4,
        other != bank,
    ensures
        cpu_after(Action::SetCpu(c), cpu) == c,
        cpu_after(Action::SetRam(mb), cpu) == cpu,
        cpu_after(Action::SetBank(bank, mb), cpu) == cpu,
        banks_after(Action::SetCpu(c), banks, spread) == banks,
        banks_after(Action::SetRam(mb), banks, spread) == spread,
        banks_after(Action::SetBank(bank, mb), banks, spread).len() == 4,
        banks_after(Action::SetBank(bank, mb), banks, spread)[bank as int] == mb,
        banks_after(Action::SetBank(bank, mb), banks, spread)[other] == banks[other],
{
}

/// Makes the change to the configuration that an entry asks for. Memory is given as it
/// is distributed over the banks, with the line that sums it up. An entry that asks for
/// no such change, or names a bank that is not there, changes nothing.
pub fn edit(cfg: &mut MachineConfig, action: Action, banks: [u32; 4], summary: &str) -> (r: Edit)
    ensures
        match action {
            Action::SetCpu(c) => {
                &&& *final(cfg) == (MachineConfig {
                    machine: MachineSection { cpu: c, ..old(cfg).machine },
                    ..*old(cfg)
                })
                &&& r.changed
                &&& r.toast matches Some(t) && t@ == c.name()
                    + " \u{2014} applies at next Start"@
            },
            Action::SetRam(_) => {
                &&& *final(cfg) == (MachineConfig { banks, ..*old(cfg) })
                &&& r.changed
                &&& r.toast matches Some(t) && t@ == "RAM set to "@ + summary@ + " ("@
                    + banks_text(banks@) + ")"@
            },
            Action::SetBank(i, mb) => {
                &&& *final(cfg) == (MachineConfig { banks: final(cfg).banks, ..*old(cfg) })
                &&& final(cfg).banks@ == if i < 4 {
                    old(cfg).banks@.update(i as int, mb)
                } else {
                    old(cfg).banks@
                }
                &&& r.changed == (i < 4)
                &&& r.toast is None
            },
            _ => *final(cfg) == *old(cfg) && !r.changed && r.toast is None,
        },
        final(cfg).machine.cpu == cpu_after(action, old(cfg).machine.cpu),
        final(cfg).banks@ == banks_after(action, old(cfg).banks@, banks@),
{
    match action {
        Action::SetCpu(c) => {
            cfg.machine.cpu = c;
            Edit { changed: true, toast: Some(cpu_toast(c)) }
        },
        Action::SetRam(_) => {
            cfg.banks = banks;
            Edit { changed: true, toast: Some(ram_toast(summary, &banks)) }
        },
        Action::SetBank(i, mb) => {
            if i < 4 {
                cfg.banks[i] = mb;
                Edit { changed: true, toast: None }
            } else {
                Edit { changed: false, toast: None }
            }
        },
        _ => Edit { changed: false, toast: None },
    }
}

/// The fit after an entry, and whether the ratio of the sides is kept.
pub open spec fn scaling_after(action: Action, scaling: DisplayScaling, keep_aspect: bool) -> (
    DisplayScaling,
    bool,
) {
    match action {
        Action::NearestInteger => (DisplayScaling::NearestInteger, keep_aspect),
        Action::Stretch => (DisplayScaling::Stretch, keep_aspect),
        Action::KeepAspect => (scaling, !keep_aspect),
        _ => (scaling, keep_aspect),
    }
}

/// Each of the two fits is what its entry makes it, whatever it was; the entry on the ratio,
/// picked twice, leaves it as it was; each leaves the other alone, and no other entry changes
/// either.
pub proof fn law_choosing_a_fit(action: Action, scaling: DisplayScaling, keep_aspect: bool)
    ensures
        scaling_after(Action::NearestInteger, scaling, keep_aspect) == (
            DisplayScaling::NearestInteger,
            keep_aspect,
        ),
        scaling_after(Action::Stretch, scaling, keep_aspect) == (
            DisplayScaling::Stretch,
            keep_aspect,
        ),
        ({
            let once = scaling_after(Action::KeepAspect, scaling, keep_aspect);
            &&& once.0 == scaling && once.1 != keep_aspect
            &&& scaling_after(Action::KeepAspect, once.0, once.1) == (scaling, keep_aspect)
        }),
        action != Action::NearestInteger && action != Action::Stretch && action
            != Action::KeepAspect ==> scaling_after(action, scaling, keep_aspect) == (
            scaling,
            keep_aspect,
        ),
{
}

/// How the picture is fitted after an entry: the fit, whether the ratio of its sides is
/// kept, and whether either is new and has to be saved.
pub fn choose_scaling(action: Action, scaling: DisplayScaling, keep_aspect: bool) -> (r: (
    DisplayScaling,
    bool,
    bool,
))
    ensures
        r.0 == match action {
            Action::NearestInteger => DisplayScaling::NearestInteger,
            Action::Stretch => DisplayScaling::Stretch,
            _ => scaling,
        },
        r.1 == (if action == Action::KeepAspect {
            !keep_aspect
        } else {
            keep_aspect
        }),
        r.2 == (r.0 != scaling || r.1 != keep_aspect),
        (r.0, r.1) == scaling_after(action, scaling, keep_aspect),
{
    match action {
        Action::NearestInteger => (
            DisplayScaling::NearestInteger,
            keep_aspect,
            scaling != DisplayScaling::NearestInteger,
        ),
        Action::Stretch => (
            DisplayScaling::Stretch,
            keep_aspect,
            scaling != DisplayScaling::Stretch,
        ),
        Action::KeepAspect => (scaling, !keep_aspect, true),
        _ => (scaling, keep_aspect, false),
    }
}

/// The buttons above the menus.
pub open spec fn control_items(running: bool) -> Seq<ItemView> {
    Seq::<ItemView>::empty().push(
        if running {
            button("\u{25a0} Stop"@, true, Action::Stop)
        } else {
            button("\u{25b6} Start"@, true, Action::Start)
        },
    ).push(button("\u{1f4be} Save state"@, running, Action::SaveState)).push(
        button("Restore state"@, running, Action::RestoreState),
    )
}

/// The buttons above the menus: a machine is started or stopped, and one that runs can
/// be saved and restored.
pub fn machine_controls(running: bool) -> (r: Vec<Item>)
    ensures
        items(r@) == control_items(running),
{
    let mut out = empty_menu();
    if running {
        put_button(&mut out, "\u{25a0} Stop", true, Action::Stop);
    } else {
        put_button(&mut out, "\u{25b6} Start", true, Action::Start);
    }
    put_button(&mut out, "\u{1f4be} Save state", running, Action::SaveState);
    put_button(&mut out, "Restore state", running, Action::RestoreState);
    out
}

/// The lines on the capture of the mouse and the keyboard.
pub open spec fn capture_items(running: bool, captured: bool, release: Seq<char>) -> Seq<ItemView> {
    if !running {
        seq![]
    } else if captured {
        Seq::<ItemView>::empty().push(line(ItemKind::Good, "Mouse/Keyboard Captured"@)).push(
            line(ItemKind::Weak, "To disable: "@ + release),
        ).push(line(ItemKind::Weak, "Send F11 to IRIX: Ctrl+Alt+F11"@))
    } else {
        Seq::<ItemView>::empty().push(
            line(ItemKind::Weak, "Mouse/Keyboard Capture Disabled"@),
        ).push(button("Capture mouse/keyboard"@, true, Action::Capture))
    }
}

/// The lines on the capture of the mouse and the keyboard: none while no machine runs,
/// how to end it while it lasts, else the button that starts it. `release` names the
/// keys that end it.
pub fn capture_controls(running: bool, captured: bool, release: &str) -> (r: Vec<Item>)
    ensures
        items(r@) == capture_items(running, captured, release@),
{
    let mut out = empty_menu();
    if running {
        if captured {
            put_line(&mut out, ItemKind::Good, "Mouse/Keyboard Captured");
            let hint = with_text("To disable: ", release, "");
            put_line(&mut out, ItemKind::Weak, hint.as_str());
            put_line(&mut out, ItemKind::Weak, "Send F11 to IRIX: Ctrl+Alt+F11");
            proof {
                reveal_strlit("");
                assert(hint@ =~= "To disable: "@ + release@);
            }
        } else {
            put_line(&mut out, ItemKind::Weak, "Mouse/Keyboard Capture Disabled");
            put_button(&mut out, "Capture mouse/keyboard", true, Action::Capture);
        }
    }
    out
}

/// What is said after the NVRAM was reset, or was not.
pub fn nvram_toast(outcome: &Result<String, String>) -> (r: String)
    ensures
        r@ == match outcome {
            Ok(mac) => "NVRAM reset \u{2014} new MAC "@ + mac@,
            Err(e) => "NVRAM reset failed: "@ + e@,
        },
{
    match outcome {
        Ok(mac) => {
            let mut s = owned("NVRAM reset \u{2014} new MAC ");
            s.append(mac.as_str());
            s
        },
        Err(e) => {
            let mut s = owned("NVRAM reset failed: ");
            s.append(e.as_str());
            s
        },
    }
}

// ---------------------------------------------------------------------------
// The SCSI menu
// ---------------------------------------------------------------------------

/// What was picked from the SCSI menu.
#[derive(Clone, Debug, PartialEq, Eq)]
pub enum MenuPick {
    Nothing,
    /// Make a new image for a slot.
    CreateBlank { id: u8 },
    /// Mount the disc again in the guest.
    RemountInIrix { id: u8 },
    /// Change the configuration.
    Change(ScsiAction),
}

/// What the emulator is told about a drive.
#[derive(Clone, Debug, PartialEq, Eq)]
pub enum DriveCommand {
    /// `remount` says to mount the disc in the guest too.
    LoadDisc { id: u8, path: String, remount: bool },
    EjectCdrom { id: u8 },
    RemountCdrom { id: u8 },
}

/// What a pick leads to.
#[derive(Clone, Debug, PartialEq, Eq)]
pub struct PickEffect {
    /// The change of the configuration, which is made first.
    pub change: Option<ScsiAction>,
    /// The slot that a new image is asked for.
    pub create: Option<u8>,
    pub command: Option<DriveCommand>,
    /// What the user is told at the end.
    pub toast: Option<String>,
}

/// What the emulator is told on a pick while a machine runs.
pub open spec fn drive_command(pick: MenuPick) -> Option<(u8, Option<Seq<char>>, bool)> {
    match pick {
        MenuPick::Change(ScsiAction::InsertDisc { id, path }) => Some((id, Some(path@), true)),
        MenuPick::Change(ScsiAction::AttachCdromWithDisc { id, path }) => Some(
            (id, Some(path@), true),
        ),
        MenuPick::Change(ScsiAction::Eject { id }) => Some((id, None, false)),
        MenuPick::RemountInIrix { id } => Some((id, None, true)),
        _ => None,
    }
}

/// A command as plain values: the slot, the disc to load, and whether a disc is mounted in
/// the guest.
pub open spec fn command_view(c: Option<DriveCommand>) -> Option<(u8, Option<Seq<char>>, bool)> {
    match c {
        Some(DriveCommand::LoadDisc { id, path, remount }) => Some((id, Some(path@), remount)),
        Some(DriveCommand::EjectCdrom { id }) => Some((id, None, false)),
        Some(DriveCommand::RemountCdrom { id }) => Some((id, None, true)),
        None => None,
    }
}

/// What the user is told at the end.
pub open spec fn pick_toast(pick: MenuPick, running: bool) -> Option<Seq<char>> {
    match pick {
        MenuPick::Change(ScsiAction::InsertDisc { id, path }) => if running {
            None
        } else {
            Some("Disc saved \u{2014} Stop\u{2192}Start to load into SCSI drive"@)
        },
        MenuPick::RemountInIrix { id } => if running {
            Some(
                "SCSI #"@ + crate::text::decimal(id as nat)
                    + ": remount sent \u{2014} keep a shell focused on the console"@,
            )
        } else {
            Some("Mount /CDROM: start the VM first"@)
        },
        _ => None,
    }
}

fn copy_action(a: &ScsiAction) -> (r: ScsiAction)
    ensures
        r.slot() == a.slot(),
        r.message() == a.message(),
        forall|d: Option<crate::config::DeviceView>| #[trigger] r.becomes(d) == a.becomes(d),
{
    match a {
        ScsiAction::AttachHdd { id, path } => ScsiAction::AttachHdd { id: *id, path: path.clone() },
        ScsiAction::AttachEmptyCdrom { id } => ScsiAction::AttachEmptyCdrom { id: *id },
        ScsiAction::AttachCdromWithDisc { id, path } => ScsiAction::AttachCdromWithDisc {
            id: *id,
            path: path.clone(),
        },
        ScsiAction::InsertDisc { id, path } => ScsiAction::InsertDisc {
            id: *id,
            path: path.clone(),
        },
        ScsiAction::Eject { id } => ScsiAction::Eject { id: *id },
        ScsiAction::Detach { id } => ScsiAction::Detach { id: *id },
        ScsiAction::ToggleOverlay { id } => ScsiAction::ToggleOverlay { id: *id },
    }
}

/// What a pick leads to. A change of the configuration is made whether or not a
/// machine runs; a drive is told only while one does.
pub fn on_pick(pick: &MenuPick, running: bool) -> (r: PickEffect)
    ensures
        match r.change {
            Some(c) => pick matches MenuPick::Change(a) && c.slot() == a.slot() && c.message()
                == a.message() && forall|d: Option<crate::config::DeviceView>| #[trigger]
                c.becomes(d) == a.becomes(d),
            None => !(pick is Change),
        },
        r.create == match pick {
            MenuPick::CreateBlank { id } => Some(*id),
            _ => None,
        },
        command_view(r.command) == if running {
            drive_command(*pick)
        } else {
            None
        },
        crate::text::opt_text(r.toast) == pick_toast(*pick, running),
{
    match pick {
        MenuPick::Nothing => PickEffect { change: None, create: None, command: None, toast: None },
        MenuPick::CreateBlank { id } => PickEffect {
            change: None,
            create: Some(*id),
            command: None,
            toast: None,
        },
        MenuPick::RemountInIrix { id } => {
            if running {
                let mut t = owned("SCSI #");
                push_decimal(&mut t, *id as u64);
                t.append(": remount sent \u{2014} keep a shell focused on the console");
                PickEffect {
                    change: None,
                    create: None,
                    command: Some(DriveCommand::RemountCdrom { id: *id }),
                    toast: Some(t),
                }
            } else {
                PickEffect {
                    change: None,
                    create: None,
                    command: None,
                    toast: Some(owned("Mount /CDROM: start the VM first")),
                }
            }
        },
        MenuPick::Change(action) => {
            let command = if !running {
                None
            } else {
                match action {
                    ScsiAction::InsertDisc { id, path } => Some(
                        DriveCommand::LoadDisc { id: *id, path: path.clone(), remount: true },
                    ),
                    ScsiAction::AttachCdromWithDisc { id, path } => Some(
                        DriveCommand::LoadDisc { id: *id, path: path.clone(), remount: true },
                    ),
                    ScsiAction::Eject { id } => Some(DriveCommand::EjectCdrom { id: *id }),
                    _ => None,
                }
            };
            let toast = match action {
                ScsiAction::InsertDisc { id: _, path: _ } => {
                    if running {
                        None
                    } else {
                        Some(
                            owned("Disc saved \u{2014} Stop\u{2192}Start to load into SCSI drive"),
                        )
                    }
                },
                _ => None,
            };
            PickEffect { change: Some(copy_action(action)), create: None, command, toast }
        },
    }
}

// ---------------------------------------------------------------------------
// Copy-on-write changes
// ---------------------------------------------------------------------------

/// A disk that may have an overlay on the host.
#[derive(Clone, Debug, PartialEq, Eq)]
pub struct CowCandidate {
    pub id: u8,
    pub base: String,
    pub chd: bool,
}

/// A disk that may have an overlay, as plain values.
pub open spec fn candidate_view(c: CowCandidate) -> (u8, Seq<char>, bool) {
    (c.id, c.base@, c.chd)
}

/// The disks as plain values.
pub open spec fn candidates_view(v: Seq<CowCandidate>) -> Seq<(u8, Seq<char>, bool)> {
    Seq::new(v.len(), |i: int| candidate_view(v[i]))
}

/// Whether a device may have an overlay: no CD-ROM drive and no scratch disk, with an
/// image; a raw image only where copy-on-write is configured.
pub open spec fn may_have_overlay(d: crate::config::DeviceView, windows: bool) -> bool {
    &&& !d.cdrom
    &&& !d.scratch
    &&& crate::text::trimmed(d.path).len() > 0
    &&& crate::chd_disk::chd_on(d.path, windows) || d.overlay
}

/// The disks that may have an overlay, with ids below `n`, in order.
pub open spec fn cow_list(
    devs: Map<u8, crate::config::DeviceView>,
    windows: bool,
    n: int,
) -> Seq<(u8, Seq<char>, bool)>
    decreases n,
{
    if n <= 0 || n > 256 {
        seq![]
    } else {
        let id = (n - 1) as u8;
        if devs.contains_key(id) && may_have_overlay(devs[id], windows) {
            cow_list(devs, windows, n - 1).push(
                (id, devs[id].path, crate::chd_disk::chd_on(devs[id].path, windows)),
            )
        } else {
            cow_list(devs, windows, n - 1)
        }
    }
}

fn cow_candidate(id: u8, d: &ScsiDeviceConfig, windows: bool) -> (r: Option<CowCandidate>)
    ensures
        match r {
            Some(c) => may_have_overlay(d@, windows) && candidate_view(c) == (
                id,
                d@.path,
                crate::chd_disk::chd_on(d@.path, windows),
            ),
            None => !may_have_overlay(d@, windows),
        },
{
    if d.cdrom || d.scratch || trim_chars(d.path.as_str()).len() == 0 {
        return None;
    }
    let chd = is_chd_on(d.path.as_str(), windows);
    if chd || d.overlay {
        Some(CowCandidate { id, base: d.path.clone(), chd })
    } else {
        None
    }
}

/// The disks that may have an overlay on the host, by id. `windows` says that paths are
/// those of Windows.
pub fn cow_candidates(cfg: &MachineConfig, windows: bool) -> (r: Vec<CowCandidate>)
    ensures
        candidates_view(r@) == cow_list(crate::machine_config::devices(cfg.scsi@), windows, 256),
{
    let ghost devs = crate::machine_config::devices(cfg.scsi@);
    let mut out: Vec<CowCandidate> = Vec::new();
    proof {
        assert(candidates_view(out@) =~= cow_list(devs, windows, 0));
    }
    let mut id: u16 = 0;
    while id < 256
        invariant
            id <= 256,
            devs == crate::machine_config::devices(cfg.scsi@),
            candidates_view(out@) == cow_list(devs, windows, id as int),
        decreases 256 - id,
    {
        let ghost before = out@;
        match cfg.scsi.get(&(id as u8)) {
            Some(d) => match cow_candidate(id as u8, d, windows) {
                Some(c) => {
                    let ghost seen = candidate_view(c);
                    out.push(c);
                    proof {
                        assert(candidates_view(out@) =~= candidates_view(before).push(seen));
                    }
                },
                None => {},
            },
            None => {},
        }
        id = id + 1;
    }
    out
}

/// The overlay of a raw image.
pub fn raw_overlay_path(base: &str) -> (r: String)
    ensures
        r@ == base@ + ".overlay"@,
{
    let mut s = owned(base);
    s.append(".overlay");
    s
}

/// What the menu on copy-on-write changes shows.
#[derive(Clone, Copy, Debug, PartialEq, Eq, Structural)]
pub enum CowMenu {
    /// There is nothing to show.
    Hidden,
    /// Changes can be committed or rolled back only while no machine runs.
    StopFirst,
    /// The disks, each with both entries.
    Entries,
}

/// What the menu on copy-on-write changes shows, by how many disks have an overlay.
pub open spec fn cow_menu_of(overlays: usize, running: bool) -> CowMenu {
    if overlays == 0 {
        CowMenu::Hidden
    } else if running {
        CowMenu::StopFirst
    } else {
        CowMenu::Entries
    }
}

/// Without overlays there is nothing to show; with some, they can be committed or rolled back
/// exactly while no machine runs.
pub proof fn law_the_menu_on_overlays(overlays: usize, running: bool)
    ensures
        cow_menu_of(overlays, running) == CowMenu::Hidden <==> overlays == 0,
        cow_menu_of(overlays, running) == CowMenu::Entries <==> overlays > 0 && !running,
        cow_menu_of(overlays, running) == CowMenu::StopFirst <==> overlays > 0 && running,
{
}

/// What the menu on copy-on-write changes shows; `overlays` is how many of the disks
/// have an overlay.
pub fn cow_menu(overlays: usize, running: bool) -> (r: CowMenu)
    ensures
        r == if overlays == 0 {
            CowMenu::Hidden
        } else if running {
            CowMenu::StopFirst
        } else {
            CowMenu::Entries
        },
        r == cow_menu_of(overlays, running),
{
    if overlays == 0 {
        CowMenu::Hidden
    } else if running {
        CowMenu::StopFirst
    } else {
        CowMenu::Entries
    }
}

/// What a disk is called in the menu.
pub fn cow_label(c: &CowCandidate, windows: bool) -> (r: String)
    ensures
        r@ == "SCSI "@ + crate::text::decimal(c.id as nat) + ": "@ + crate::scsi_menu::shown_name(
            c.base@,
            windows,
        ),
{
    let mut s = owned("SCSI ");
    push_decimal(&mut s, c.id as u64);
    s.append(": ");
    s.append(show_name(c.base.as_str(), windows).as_str());
    s
}

// ---------------------------------------------------------------------------
// Status
// ---------------------------------------------------------------------------

/// How the machine stands.
#[derive(Clone, Copy, Debug, PartialEq, Eq, Structural)]
pub enum RunState {
    Halted,
    Prom,
    Running,
    Stopped,
}

impl RunState {
    /// The state in words.
    pub open spec fn text(self) -> Seq<char> {
        match self {
            RunState::Halted => "halted \u{2014} safe to stop"@,
            RunState::Prom => "PROM"@,
            RunState::Running => "IRIX running"@,
            RunState::Stopped => "stopped"@,
        }
    }

    /// The state in words.
    pub fn label(self) -> (r: &'static str)
        ensures
            r@ == self.text(),
    {
        match self {
            RunState::Halted => "halted \u{2014} safe to stop",
            RunState::Prom => "PROM",
            RunState::Running => "IRIX running",
            RunState::Stopped => "stopped",
        }
    }
}

/// How the machine stands, by whether it runs, its processor halted and it is in the PROM.
pub open spec fn standing(running: bool, cpu_halted: bool, in_prom: bool) -> RunState {
    if running && cpu_halted {
        RunState::Halted
    } else if in_prom {
        RunState::Prom
    } else if running {
        RunState::Running
    } else {
        RunState::Stopped
    }
}

/// It is safe to stop exactly a running machine whose processor halted. Any other is in the
/// PROM if it is there, else it runs or is stopped.
pub proof fn law_how_the_machine_stands(running: bool, cpu_halted: bool, in_prom: bool)
    ensures
        ({
            let state = standing(running, cpu_halted, in_prom);
            let halted = running && cpu_halted;
            &&& state == RunState::Halted <==> halted
            &&& state == RunState::Prom <==> in_prom && !halted
            &&& state == RunState::Running <==> running && !cpu_halted && !in_prom
            &&& state == RunState::Stopped <==> !running && !in_prom
        }),
{
}

/// How the machine stands. A running machine whose processor halted comes first.
pub fn run_state(running: bool, cpu_halted: bool, in_prom: bool) -> (r: RunState)
    ensures
        r == if running && cpu_halted {
            RunState::Halted
        } else if in_prom {
            RunState::Prom
        } else if running {
            RunState::Running
        } else {
            RunState::Stopped
        },
        r == standing(running, cpu_halted, in_prom),
{
    if running && cpu_halted {
        RunState::Halted
    } else if in_prom {
        RunState::Prom
    } else if running {
        RunState::Running
    } else {
        RunState::Stopped
    }
}

/// Whether the speed is shown.
pub fn shows_mips(running: bool, cpu_halted: bool) -> (r: bool)
    ensures
        r == (running && !cpu_halted),
{
    running && !cpu_halted
}

/// How the network stands.
#[derive(Clone, Copy, Debug, PartialEq, Eq, Structural)]
pub enum NetState {
    /// The guest carries traffic.
    Active,
    /// It runs, and has carried none.
    Idle,
    Off,
}

impl NetState {
    /// The colour of the indicator: red, green and blue.
    pub fn color(self) -> (r: (u8, u8, u8))
        ensures
            r == match self {
                NetState::Active => (0x35u8, 0xb8u8, 0x4au8),
                NetState::Idle => (0xd9u8, 0x4au8, 0x3du8),
                NetState::Off => (0x80u8, 0x80u8, 0x80u8),
            },
    {
        match self {
            NetState::Active => (0x35, 0xb8, 0x4a),
            NetState::Idle => (0xd9, 0x4a, 0x3d),
            NetState::Off => (0x80, 0x80, 0x80),
        }
    }
}

/// The network that a machine was started with: the mode, and the interface of a
/// bridged one.
pub type LaunchedNet = Option<(NetMode, Option<String>)>;

/// The interface as it is shown.
pub open spec fn shown_interface(i: Option<String>) -> Seq<char> {
    match i {
        Some(s) => if s@.len() > 0 {
            s@
        } else {
            "auto"@
        },
        None => "auto"@,
    }
}

/// The network that the indicator speaks of: that of a running machine.
pub open spec fn shown_net(running: bool, net: LaunchedNet) -> LaunchedNet {
    if running {
        net
    } else {
        None
    }
}

/// The name on the indicator.
pub open spec fn badge(running: bool, net: LaunchedNet) -> Seq<char> {
    match shown_net(running, net) {
        Some((NetMode::Pcap, _)) => "PCAP"@,
        Some((NetMode::Nat, _)) => "NAT"@,
        None => "NET"@,
    }
}

/// What the indicator explains.
pub open spec fn badge_tip(running: bool, net: LaunchedNet, state: NetState) -> Seq<char> {
    match shown_net(running, net) {
        Some((NetMode::Pcap, i)) => match state {
            NetState::Active => "Bridged (PCAP) on "@ + shown_interface(i)
                + ": guest is carrying IP traffic."@,
            NetState::Idle => "Bridged (PCAP) on "@ + shown_interface(i)
                + ": no guest IP traffic yet.\nCheck the guest's IP / DHCP \u{2014} wired connections only."@,
            NetState::Off => "Bridged (PCAP) networking: machine not running."@,
        },
        Some((NetMode::Nat, _)) => match state {
            NetState::Active => "Internal NAT network: carrying guest traffic."@,
            NetState::Idle =>
                "Internal NAT network: no traffic yet.\nThe guest may have no IP \u{2014} or the wrong IP for this NAT subnet."@,
            NetState::Off => "Internal NAT network: machine not running."@,
        },
        None => "Internal network: machine not running."@,
    }
}

fn interface_text(i: &Option<String>) -> (r: String)
    ensures
        r@ == shown_interface(*i),
{
    match i {
        Some(s) => {
            if chars_of(s.as_str()).len() > 0 {
                s.clone()
            } else {
                owned("auto")
            }
        },
        None => owned("auto"),
    }
}

/// The network indicator: its name and what it explains.
pub fn net_badge(running: bool, net: &LaunchedNet, state: NetState) -> (r: (&'static str, String))
    ensures
        r.0@ == badge(running, *net),
        r.1@ == badge_tip(running, *net, state),
{
    if !running {
        return ("NET", owned("Internal network: machine not running."));
    }
    match net {
        Some((NetMode::Pcap, i)) => {
            let name = interface_text(i);
            let tip = match state {
                NetState::Active => with_text(
                    "Bridged (PCAP) on ",
                    name.as_str(),
                    ": guest is carrying IP traffic.",
                ),
                NetState::Idle => with_text(
                    "Bridged (PCAP) on ",
                    name.as_str(),
                    ": no guest IP traffic yet.\nCheck the guest's IP / DHCP \u{2014} wired connections only.",
                ),
                NetState::Off => owned("Bridged (PCAP) networking: machine not running."),
            };
            ("PCAP", tip)
        },
        Some((NetMode::Nat, _)) => {
            let tip = match state {
                NetState::Active => owned("Internal NAT network: carrying guest traffic."),
                NetState::Idle => owned(
                    "Internal NAT network: no traffic yet.\nThe guest may have no IP \u{2014} or the wrong IP for this NAT subnet.",
                ),
                NetState::Off => owned("Internal NAT network: machine not running."),
            };
            ("NAT", tip)
        },
        None => ("NET", owned("Internal network: machine not running.")),
    }
}

/// Whether the guest's address can be checked against the subnet: only on the internal
/// network of a running machine.
pub fn offers_net_check(running: bool, net: &LaunchedNet) -> (r: bool)
    ensures
        r == (running && net matches Some((NetMode::Nat, _))),
{
    if !running {
        return false;
    }
    match net {
        Some((NetMode::Nat, _)) => true,
        _ => false,
    }
}

/// The processor that the status names: the one that the guest runs on, else the
/// configured one.
pub open spec fn named_cpu(running: bool, started: Option<CpuModel>, configured: CpuModel) -> CpuModel {
    match started {
        Some(c) => if running {
            c
        } else {
            configured
        },
        None => configured,
    }
}

/// The line on the machine.
pub fn machine_line(
    name: &Option<String>,
    profile: MachineProfile,
    running: bool,
    started: Option<CpuModel>,
    configured: CpuModel,
    dirty: bool,
) -> (r: String)
    ensures
        r@ == "Machine: "@ + (match name {
            Some(n) => n@,
            None => "(unsaved)"@,
        }) + " \u{b7} "@ + profile.name() + " \u{b7} "@ + named_cpu(
            running,
            started,
            configured,
        ).name() + (if dirty {
            " *"@
        } else {
            ""@
        }),
{
    let mut s = owned("Machine: ");
    match name {
        Some(n) => {
            s.append(n.as_str());
        },
        None => {
            s.append("(unsaved)");
        },
    }
    s.append(" \u{b7} ");
    s.append(profile.label());
    s.append(" \u{b7} ");
    let cpu = match started {
        Some(c) => {
            if running {
                c
            } else {
                configured
            }
        },
        None => configured,
    };
    s.append(cpu.label());
    if dirty {
        s.append(" *");
    } else {
        s.append("");
    }
    s
}

/// The line on a processor that waits for the next start.
pub fn pending_cpu_line(running: bool, started: Option<CpuModel>, configured: CpuModel) -> (r:
    Option<String>)
    ensures
        match r {
            Some(t) => {
                &&& running
                &&& started matches Some(c) && c != configured
                &&& t@ == configured.name() + " pending (Stop to apply)"@
            },
            None => !running || started is None || started == Some(configured),
        },
{
    if !running {
        return None;
    }
    match started {
        Some(c) => {
            if c != configured {
                let mut s = owned(configured.label());
                s.append(" pending (Stop to apply)");
                Some(s)
            } else {
                None
            }
        },
        None => None,
    }
}

/// The status names a processor that differs from the configured one exactly where the
/// line on a waiting one is shown.
pub proof fn law_a_pending_processor_is_announced(
    running: bool,
    started: Option<CpuModel>,
    configured: CpuModel,
)
    ensures
        named_cpu(running, started, configured) != configured <==> running && started is Some
            && started != Some(configured),
{
}

/// The line on sectors that were written to overlays.
pub fn dirty_line(dirty_cow: u64) -> (r: String)
    ensures
        r@ == "Dirty COW: "@ + crate::text::decimal(dirty_cow as nat),
{
    let mut s = owned("Dirty COW: ");
    push_decimal(&mut s, dirty_cow);
    s
}

/// Seconds that a message stays.
pub const TOAST_SECS: u64 = 5;

/// Whether a message is still shown.
pub fn shows_toast(elapsed_secs: u64) -> (r: bool)
    ensures
        r == (elapsed_secs < TOAST_SECS),
        r == (elapsed_secs < 5),
{
    elapsed_secs < TOAST_SECS
}

/// A tab of the configuration editor that has a button of its own.
#[derive(Clone, Copy, Debug, PartialEq, Eq, Structural)]
pub enum QuickTab {
    Network,
    VideoIn,
    Debug,
    Ci,
}

/// The tabs that have a button, in order: none that the build hides, and none while
/// the editor is closed.
pub open spec fn quick_tabs_of(editor: bool, lightning: bool, appstore: bool) -> Seq<QuickTab> {
    let both = seq![QuickTab::Network, QuickTab::VideoIn];
    let debug = if lightning {
        both
    } else {
        both.push(QuickTab::Debug)
    };
    if !editor {
        seq![]
    } else if appstore {
        debug
    } else {
        debug.push(QuickTab::Ci)
    }
}

/// The tabs that have a button, in order.
pub fn quick_tabs(editor: bool, lightning: bool, appstore: bool) -> (r: Vec<QuickTab>)
    ensures
        r@ == quick_tabs_of(editor, lightning, appstore),
{
    let mut out: Vec<QuickTab> = Vec::new();
    if editor {
        out.push(QuickTab::Network);
        out.push(QuickTab::VideoIn);
        if !lightning {
            out.push(QuickTab::Debug);
        }
        if !appstore {
            out.push(QuickTab::Ci);
        }
    }
    proof {
        assert(out@ =~= quick_tabs_of(editor, lightning, appstore));
    }
    out
}

/// The label of the button that opens and closes the editor.
pub fn editor_label(open: bool) -> (r: &'static str)
    ensures
        r@ == if open {
            "Hide config editor"@
        } else {
            "Edit config\u{2026}"@
        },
{
    if open {
        "Hide config editor"
    } else {
        "Edit config\u{2026}"
    }
}

/// The heading of the editor.
pub fn editor_heading(machine: &Option<String>) -> (r: String)
    ensures
        r@ == "Configuration \u{2014} "@ + match machine {
            Some(m) => m@,
            None => "default"@,
        },
{
    let mut s = owned("Configuration \u{2014} ");
    match machine {
        Some(m) => {
            s.append(m.as_str());
        },
        None => {
            s.append("default");
        },
    }
    s
}

// ---------------------------------------------------------------------------
// Laws of the menus
// ---------------------------------------------------------------------------

/// A menu has an entry for an action.
pub open spec fn holds(v: Seq<ItemView>, a: Action) -> bool {
    exists|i: int| 0 <= i < v.len() && (#[trigger] v[i]).action == a
}

/// Every entry for an action has this label and can, or cannot, be picked.
pub open spec fn shown_as(v: Seq<ItemView>, a: Action, label: Seq<char>, enabled: bool) -> bool {
    forall|i: int|
        0 <= i < v.len() && (#[trigger] v[i]).action == a ==> v[i].label == label && v[i].enabled
            == enabled
}

/// A menu offers an action: there is an entry for it, with this label, which can, or cannot,
/// be picked.
pub open spec fn offers(v: Seq<ItemView>, a: Action, label: Seq<char>, enabled: bool) -> bool {
    holds(v, a) && shown_as(v, a, label, enabled)
}

proof fn lemma_pushed(v: Seq<ItemView>, x: ItemView, a: Action)
    ensures
        holds(v.push(x), a) == (holds(v, a) || x.action == a),
        forall|label: Seq<char>, on: bool| #[trigger]
            shown_as(v.push(x), a, label, on) == (shown_as(v, a, label, on) && (x.action == a
                ==> x.label == label && x.enabled == on)),
{
    let w = v.push(x);
    assert(w[v.len() as int] == x);
    assert forall|i: int| 0 <= i < v.len() implies w[i] == #[trigger] v[i] by {}
    if holds(v, a) {
        let i = choose|i: int| 0 <= i < v.len() && (#[trigger] v[i]).action == a;
        assert(w[i].action == a);
    }
    if holds(w, a) {
        let i = choose|i: int| 0 <= i < w.len() && (#[trigger] w[i]).action == a;
        if i < v.len() {
            assert(v[i].action == a);
        }
    }
    assert forall|label: Seq<char>, on: bool| #[trigger] shown_as(w, a, label, on) == (shown_as(
        v,
        a,
        label,
        on,
    ) && (x.action == a ==> x.label == label && x.enabled == on)) by {
        if shown_as(w, a, label, on) {
            assert forall|i: int| 0 <= i < v.len() && (#[trigger] v[i]).action
                == a implies v[i].label == label && v[i].enabled == on by {
                assert(w[i] == v[i]);
            }
        }
        if shown_as(v, a, label, on) && (x.action == a ==> x.label == label && x.enabled == on) {
            assert forall|i: int| 0 <= i < w.len() && (#[trigger] w[i]).action
                == a implies w[i].label == label && w[i].enabled == on by {
                if i < v.len() {
                    assert(w[i] == v[i]);
                }
            }
        }
    }
}

proof fn lemma_joined(v: Seq<ItemView>, w: Seq<ItemView>, a: Action)
    ensures
        holds(v + w, a) == (holds(v, a) || holds(w, a)),
        forall|label: Seq<char>, on: bool| #[trigger]
            shown_as(v + w, a, label, on) == (shown_as(v, a, label, on) && shown_as(
                w,
                a,
                label,
                on,
            )),
    decreases w.len(),
{
    if w.len() == 0 {
        assert(v + w =~= v);
        assert(!holds(w, a));
    } else {
        let front = w.drop_last();
        lemma_joined(v, front, a);
        assert(v + w =~= (v + front).push(w.last()));
        assert(w =~= front.push(w.last()));
        lemma_pushed(v + front, w.last(), a);
        lemma_pushed(front, w.last(), a);
    }
}

proof fn lemma_nothing(a: Action)
    ensures
        !holds(Seq::<ItemView>::empty(), a),
        forall|label: Seq<char>, on: bool| #[trigger]
            shown_as(Seq::<ItemView>::empty(), a, label, on),
{
}

/// The entries of machines, folders, sizes, authors and links ask for nothing else.
proof fn lemma_machines_only(s: FileState, n: int, a: Action)
    requires
        !(a is SwitchTo),
    ensures
        !holds(machine_items(s, n), a),
        forall|label: Seq<char>, on: bool| #[trigger]
            shown_as(machine_items(s, n), a, label, on),
    decreases n,
{
    if 0 < n <= s.machines@.len() {
        lemma_machines_only(s, n - 1, a);
        lemma_pushed(machine_items(s, n - 1), machine_items(s, n).last(), a);
    }
}

proof fn lemma_folders_only(s: FileState, n: int, a: Action)
    requires
        !(a is Folder),
    ensures
        !holds(folder_items(s, n), a),
        forall|label: Seq<char>, on: bool| #[trigger]
            shown_as(folder_items(s, n), a, label, on),
    decreases n,
{
    if 0 < n <= s.folders@.len() {
        lemma_folders_only(s, n - 1, a);
        lemma_pushed(folder_items(s, n - 1), folder_items(s, n).last(), a);
    }
}

/// What the entries on machines say of one action.
proof fn lemma_switch_items(s: FileState, a: Action)
    requires
        !(a is SwitchTo) && a != Action::Nothing,
    ensures
        holds(switch_items(s), a) == (a == Action::NewMachine),
        forall|label: Seq<char>, on: bool| #[trigger]
            shown_as(switch_items(s), a, label, on) == (a == Action::NewMachine ==> label
                == "New machine\u{2026}"@ && on),
{
    let e = Seq::<ItemView>::empty();
    lemma_nothing(a);
    let a1 = button("New machine\u{2026}"@, true, Action::NewMachine);
    let a2 = line(ItemKind::Submenu, "Switch to machine"@);
    lemma_pushed(e, a1, a);
    lemma_pushed(e.push(a1), a2, a);
    let head = e.push(a1).push(a2);
    let machines = machine_items(s, s.machines@.len() as int);
    lemma_machines_only(s, s.machines@.len() as int, a);
    if s.machines@.len() == 0 {
        let note = ItemView {
            kind: ItemKind::Weak,
            label: "(no saved machines yet)"@,
            enabled: true,
            selected: false,
            depth: 1,
            action: Action::Nothing,
        };
        lemma_pushed(head, note, a);
        lemma_joined(head.push(note), machines, a);
        assert(switch_items(s) == head.push(note) + machines);
    } else {
        lemma_joined(head, machines, a);
        assert(switch_items(s) == head + machines);
    }
}

/// What the entries on configuration files say of one action.
proof fn lemma_toml_items(a: Action)
    requires
        a != Action::Nothing,
    ensures
        holds(toml_items(), a) == (a == Action::ImportToml || a == Action::ExportToml || a
            == Action::PrepareForPremiere),
        forall|label: Seq<char>, on: bool| #[trigger]
            shown_as(toml_items(), a, label, on) == {
                &&& a == Action::ImportToml ==> label == "Import iris.toml\u{2026}"@ && on
                &&& a == Action::ExportToml ==> label == "Export current to iris.toml\u{2026}"@
                    && on
                &&& a == Action::PrepareForPremiere ==> label == "Prepare for premiere\u{2026}"@
                    && on
            },
{
    let e = Seq::<ItemView>::empty();
    lemma_nothing(a);
    let sep = line(ItemKind::Separator, ""@);
    let t1 = button("Import iris.toml\u{2026}"@, true, Action::ImportToml);
    let t2 = button("Export current to iris.toml\u{2026}"@, true, Action::ExportToml);
    let t3 = button("Prepare for premiere\u{2026}"@, true, Action::PrepareForPremiere);
    lemma_pushed(e, sep, a);
    lemma_pushed(e.push(sep), t1, a);
    lemma_pushed(e.push(sep).push(t1), t2, a);
    lemma_pushed(e.push(sep).push(t1).push(t2), t3, a);
    assert(toml_items() == e.push(sep).push(t1).push(t2).push(t3));
}

/// What the entries on granted folders say of one action.
proof fn lemma_grant_items(s: FileState, a: Action)
    requires
        !(a is Folder) && a != Action::Nothing,
    ensures
        holds(grant_items(s), a) == (a == Action::GrantFolder),
        forall|label: Seq<char>, on: bool| #[trigger]
            shown_as(grant_items(s), a, label, on) == (a == Action::GrantFolder ==> label
                == "Grant a disk folder\u{2026}"@ && on),
{
    let e = Seq::<ItemView>::empty();
    lemma_nothing(a);
    let sep = line(ItemKind::Separator, ""@);
    let g1 = line(ItemKind::Strong, "Disk folder access"@);
    let g2 = button("Grant a disk folder\u{2026}"@, true, Action::GrantFolder);
    lemma_pushed(e, sep, a);
    lemma_pushed(e.push(sep), g1, a);
    lemma_pushed(e.push(sep).push(g1), g2, a);
    let head = e.push(sep).push(g1).push(g2);
    let rows = folder_items(s, s.folders@.len() as int);
    lemma_folders_only(s, s.folders@.len() as int, a);
    if s.folders@.len() == 0 {
        let g3 = line(ItemKind::Weak, "(no folders granted yet)"@);
        lemma_pushed(head, g3, a);
        lemma_joined(head.push(g3), rows, a);
        assert(grant_items(s) == head.push(g3) + rows);
    } else {
        lemma_joined(head, rows, a);
        assert(grant_items(s) == head + rows);
    }
}

/// What the file menu says of one action, from its parts.
proof fn lemma_file_menu(s: FileState, a: Action, label: Seq<char>, on: bool)
    requires
        !(a is SwitchTo) && !(a is Folder) && a != Action::Nothing,
    ensures
        ({
            let b1 = button("Rename current\u{2026}"@, s.active is Some, Action::RenameCurrent);
            let b2 = button("Delete current machine"@, s.active is Some, Action::DeleteCurrent);
            let quit = button("Quit"@, true, Action::Quit);
            &&& holds(file_items(s), a) == {
                ||| holds(switch_items(s), a) || a == b1.action || a == b2.action || a
                    == quit.action
                ||| !s.bundled && holds(toml_items(), a)
                ||| s.appstore && holds(grant_items(s), a)
            }
            &&& shown_as(file_items(s), a, label, on) == {
                &&& shown_as(switch_items(s), a, label, on)
                &&& a == b1.action ==> label == b1.label && on == b1.enabled
                &&& a == b2.action ==> label == b2.label && on == b2.enabled
                &&& a == quit.action ==> label == quit.label && on == quit.enabled
                &&& !s.bundled ==> shown_as(toml_items(), a, label, on)
                &&& s.appstore ==> shown_as(grant_items(s), a, label, on)
            }
        }),
{
    let sep = line(ItemKind::Separator, ""@);
    let b1 = button("Rename current\u{2026}"@, s.active is Some, Action::RenameCurrent);
    let b2 = button("Delete current machine"@, s.active is Some, Action::DeleteCurrent);
    let quit = button("Quit"@, true, Action::Quit);
    let start = switch_items(s);
    lemma_pushed(start, b1, a);
    lemma_pushed(start.push(b1), b2, a);
    let current = start.push(b1).push(b2);
    lemma_joined(current, toml_items(), a);
    let files = if !s.bundled {
        current + toml_items()
    } else {
        current
    };
    lemma_joined(files, grant_items(s), a);
    let folders = if s.appstore {
        files + grant_items(s)
    } else {
        files
    };
    lemma_pushed(folders, sep, a);
    lemma_pushed(folders.push(sep), quit, a);
    assert(file_items(s) == folders.push(sep).push(quit));
}

/// An action of the file menu and how it is shown.
proof fn lemma_file_action(s: FileState, a: Action, label: Seq<char>, on: bool)
    requires
        !(a is SwitchTo) && !(a is Folder) && a != Action::Nothing,
    ensures
        offers(file_items(s), a, label, on) == {
            ||| a == Action::NewMachine && label == "New machine\u{2026}"@ && on
            ||| a == Action::RenameCurrent && label == "Rename current\u{2026}"@ && on
                == s.active is Some
            ||| a == Action::DeleteCurrent && label == "Delete current machine"@ && on
                == s.active is Some
            ||| a == Action::Quit && label == "Quit"@ && on
            ||| !s.bundled && a == Action::ImportToml && label == "Import iris.toml\u{2026}"@ && on
            ||| !s.bundled && a == Action::ExportToml && label
                == "Export current to iris.toml\u{2026}"@ && on
            ||| !s.bundled && a == Action::PrepareForPremiere && label
                == "Prepare for premiere\u{2026}"@ && on
            ||| s.appstore && a == Action::GrantFolder && label == "Grant a disk folder\u{2026}"@
                && on
        },
        s.bundled && (a == Action::ImportToml || a == Action::ExportToml || a
            == Action::PrepareForPremiere) ==> !holds(file_items(s), a),
        !s.appstore && a == Action::GrantFolder ==> !holds(file_items(s), a),
{
    lemma_file_menu(s, a, label, on);
    lemma_switch_items(s, a);
    lemma_toml_items(a);
    lemma_grant_items(s, a);
    assert(shown_as(switch_items(s), a, label, on) == (a == Action::NewMachine ==> label
        == "New machine\u{2026}"@ && on));
}

/// What the file menu offers: a machine can always be made, and the program left; the active
/// one can be renamed and deleted if there is one. Configuration files are there unless the
/// build is a shipped one, and folders to grant exactly in a build for the store.
pub proof fn law_the_file_menu(s: FileState)
    ensures
        ({
            let v = file_items(s);
            &&& offers(v, Action::NewMachine, "New machine\u{2026}"@, true)
            &&& offers(v, Action::RenameCurrent, "Rename current\u{2026}"@, s.active is Some)
            &&& offers(v, Action::DeleteCurrent, "Delete current machine"@, s.active is Some)
            &&& offers(v, Action::Quit, "Quit"@, true)
            &&& !s.bundled ==> {
                &&& offers(v, Action::ImportToml, "Import iris.toml\u{2026}"@, true)
                &&& offers(v, Action::ExportToml, "Export current to iris.toml\u{2026}"@, true)
                &&& offers(v, Action::PrepareForPremiere, "Prepare for premiere\u{2026}"@, true)
            }
            &&& s.bundled ==> !holds(v, Action::ImportToml) && !holds(v, Action::ExportToml) && !holds(
                v,
                Action::PrepareForPremiere,
            )
            &&& s.appstore ==> offers(v, Action::GrantFolder, "Grant a disk folder\u{2026}"@, true)
            &&& !s.appstore ==> !holds(v, Action::GrantFolder)
        }),
{
    lemma_file_action(s, Action::NewMachine, "New machine\u{2026}"@, true);
    lemma_file_action(s, Action::RenameCurrent, "Rename current\u{2026}"@, s.active is Some);
    lemma_file_action(s, Action::DeleteCurrent, "Delete current machine"@, s.active is Some);
    lemma_file_action(s, Action::Quit, "Quit"@, true);
    lemma_file_action(s, Action::ImportToml, "Import iris.toml\u{2026}"@, true);
    lemma_file_action(s, Action::ExportToml, "Export current to iris.toml\u{2026}"@, true);
    lemma_file_action(s, Action::PrepareForPremiere, "Prepare for premiere\u{2026}"@, true);
    lemma_file_action(s, Action::GrantFolder, "Grant a disk folder\u{2026}"@, true);
}

/// The machines to switch to are listed in order under their names, each with the place that
/// it has in the list; exactly those with the name of the active one are marked.
pub proof fn law_machines_to_switch_to(s: FileState, n: int)
    requires
        0 <= n <= s.machines@.len(),
    ensures
        machine_items(s, n).len() == n,
        forall|i: int|
            0 <= i < n ==> {
                let x = #[trigger] machine_items(s, n)[i];
                &&& x.label == s.machines@[i]@
                &&& x.action == Action::SwitchTo(i as usize)
                &&& x.enabled
                &&& x.selected <==> (s.active matches Some(a) && a@ == s.machines@[i]@)
            },
    decreases n,
{
    if n > 0 {
        law_machines_to_switch_to(s, n - 1);
        assert forall|i: int| 0 <= i < n implies ({
            let x = #[trigger] machine_items(s, n)[i];
            &&& x.label == s.machines@[i]@
            &&& x.action == Action::SwitchTo(i as usize)
            &&& x.enabled
            &&& x.selected <==> (s.active matches Some(a) && a@ == s.machines@[i]@)
        }) by {
            if i < n - 1 {
                assert(machine_items(s, n)[i] == machine_items(s, n - 1)[i]);
            }
        }
    }
}

/// The granted folders are listed in order under their names, each marked if it can be used
/// now.
pub proof fn law_granted_folders(s: FileState, n: int)
    requires
        0 <= n <= s.folders@.len(),
    ensures
        folder_items(s, n).len() == n,
        forall|i: int|
            0 <= i < n ==> {
                let x = #[trigger] folder_items(s, n)[i];
                &&& x.label == s.folders@[i].0@
                &&& x.action == Action::Folder(i as usize)
                &&& x.selected == s.folders@[i].1
            },
    decreases n,
{
    if n > 0 {
        law_granted_folders(s, n - 1);
        assert forall|i: int| 0 <= i < n implies ({
            let x = #[trigger] folder_items(s, n)[i];
            &&& x.label == s.folders@[i].0@
            &&& x.action == Action::Folder(i as usize)
            &&& x.selected == s.folders@[i].1
        }) by {
            if i < n - 1 {
                assert(folder_items(s, n)[i] == folder_items(s, n - 1)[i]);
            }
        }
    }
}

/// What the machine menu says of one action, from its parts.
#[verifier::spinoff_prover]
#[verifier::rlimit(50)]
proof fn lemma_machine_menu(
    running: bool,
    configured: CpuModel,
    started: Option<CpuModel>,
    a: Action,
)
    requires
        a != Action::Nothing,
    ensures
        holds(machine_items_of(running, configured, started), a) == {
            ||| a == Action::Start || a == Action::Stop || a == Action::Reset || a
                == Action::ResetNvram
            ||| a == Action::SetCpu(CpuModel::R4400) || a == Action::SetCpu(CpuModel::R5000)
            ||| a == Action::SaveState || a == Action::RestoreState
            ||| a == Action::Screenshot || a == Action::SerialConsole
        },
        forall|label: Seq<char>, on: bool| #[trigger]
            shown_as(machine_items_of(running, configured, started), a, label, on) == {
                &&& a == Action::Start ==> label == "Start"@ && on == !running
                &&& a == Action::Stop ==> label == "Stop"@ && on == running
                &&& a == Action::Reset ==> label == "Reset"@ && on == running
                &&& a == Action::ResetNvram ==> label == "Reset NVRAM (fresh PRAM)"@ && on
                    == !running
                &&& a == Action::SetCpu(CpuModel::R4400) ==> label == "MIPS R4400"@ && on
                    == !running
                &&& a == Action::SetCpu(CpuModel::R5000) ==> label == "MIPS R5000"@ && on
                    == !running
                &&& a == Action::SaveState ==> label == "Save state:"@ && on
                &&& a == Action::RestoreState ==> label == "Restore state:"@ && on
                &&& a == Action::Screenshot ==> label == "Screenshot\u{2026}"@ && on
                &&& a == Action::SerialConsole ==> label == "Serial console\u{2026}"@ && on
                    == running
            },
{
    let e = Seq::<ItemView>::empty();
    lemma_nothing(a);
    let sep = line(ItemKind::Separator, ""@);
    let c1 = e.push(button("Start"@, !running, Action::Start));
    let c2 = c1.push(button("Stop"@, running, Action::Stop));
    let c3 = c2.push(button("Reset"@, running, Action::Reset));
    let c4 = c3.push(button("Reset NVRAM (fresh PRAM)"@, !running, Action::ResetNvram));
    let c5 = c4.push(sep);
    let c6 = c5.push(line(ItemKind::Strong, "Processor: "@ + configured.name()));
    let c7 = c6.push(cpu_item(CpuModel::R4400, configured, running));
    let c8 = c7.push(cpu_item(CpuModel::R5000, configured, running));
    lemma_pushed(e, button("Start"@, !running, Action::Start), a);
    lemma_pushed(c1, button("Stop"@, running, Action::Stop), a);
    lemma_pushed(c2, button("Reset"@, running, Action::Reset), a);
    lemma_pushed(c3, button("Reset NVRAM (fresh PRAM)"@, !running, Action::ResetNvram), a);
    lemma_pushed(c4, sep, a);
    lemma_pushed(c5, line(ItemKind::Strong, "Processor: "@ + configured.name()), a);
    lemma_pushed(c6, cpu_item(CpuModel::R4400, configured, running), a);
    lemma_pushed(c7, cpu_item(CpuModel::R5000, configured, running), a);
    let told = running_cpu(started, configured);
    assert(!holds(told, a));
    assert forall|label: Seq<char>, on: bool| #[trigger] shown_as(told, a, label, on) by {}
    lemma_joined(c8, told, a);
    let wait = line(ItemKind::Weak, "CPU changes apply after Stop \u{2192} Start"@);
    lemma_pushed(c8 + told, wait, a);
    let d0 = if running {
        (c8 + told).push(wait)
    } else {
        c8
    };
    let save = ItemView {
        kind: ItemKind::Field,
        label: "Save state:"@,
        enabled: true,
        selected: false,
        depth: 0,
        action: Action::SaveState,
    };
    let restore = ItemView {
        kind: ItemKind::Field,
        label: "Restore state:"@,
        enabled: true,
        selected: false,
        depth: 0,
        action: Action::RestoreState,
    };
    let d1 = d0.push(sep);
    let d2 = d1.push(save);
    let d3 = d2.push(restore);
    let d4 = d3.push(sep);
    let d5 = d4.push(button("Screenshot\u{2026}"@, true, Action::Screenshot));
    let d6 = d5.push(button("Serial console\u{2026}"@, running, Action::SerialConsole));
    lemma_pushed(d0, sep, a);
    lemma_pushed(d1, save, a);
    lemma_pushed(d2, restore, a);
    lemma_pushed(d3, sep, a);
    lemma_pushed(d4, button("Screenshot\u{2026}"@, true, Action::Screenshot), a);
    lemma_pushed(d5, button("Serial console\u{2026}"@, running, Action::SerialConsole), a);
    assert(machine_items_of(running, configured, started) == d6);
}

/// What the machine menu offers: a machine that runs can be stopped and reset and its console
/// shown; one that does not can be started, its NVRAM reset and its processor chosen. States and
/// screenshots are always offered.
pub proof fn law_the_machine_menu(
    running: bool,
    configured: CpuModel,
    started: Option<CpuModel>,
)
    ensures
        ({
            let v = machine_items_of(running, configured, started);
            &&& offers(v, Action::Start, "Start"@, !running)
            &&& offers(v, Action::Stop, "Stop"@, running)
            &&& offers(v, Action::Reset, "Reset"@, running)
            &&& offers(v, Action::ResetNvram, "Reset NVRAM (fresh PRAM)"@, !running)
            &&& offers(v, Action::SetCpu(CpuModel::R4400), "MIPS R4400"@, !running)
            &&& offers(v, Action::SetCpu(CpuModel::R5000), "MIPS R5000"@, !running)
            &&& offers(v, Action::SaveState, "Save state:"@, true)
            &&& offers(v, Action::RestoreState, "Restore state:"@, true)
            &&& offers(v, Action::Screenshot, "Screenshot\u{2026}"@, true)
            &&& offers(v, Action::SerialConsole, "Serial console\u{2026}"@, running)
        }),
{
    lemma_machine_menu(running, configured, started, Action::Start);
    lemma_machine_menu(running, configured, started, Action::Stop);
    lemma_machine_menu(running, configured, started, Action::Reset);
    lemma_machine_menu(running, configured, started, Action::ResetNvram);
    lemma_machine_menu(running, configured, started, Action::SetCpu(CpuModel::R4400));
    lemma_machine_menu(running, configured, started, Action::SetCpu(CpuModel::R5000));
    lemma_machine_menu(running, configured, started, Action::SaveState);
    lemma_machine_menu(running, configured, started, Action::RestoreState);
    lemma_machine_menu(running, configured, started, Action::Screenshot);
    lemma_machine_menu(running, configured, started, Action::SerialConsole);
}

/// The entry of a processor is marked exactly if it is the configured one, and a processor
/// that the guest does not run on is warned of.
pub proof fn law_processors(c: CpuModel, configured: CpuModel, started: CpuModel, running: bool)
    ensures
        cpu_item(c, configured, running).selected <==> c == configured,
        cpu_item(c, configured, running).enabled <==> !running,
        cpu_item(c, configured, running).action == Action::SetCpu(c),
        running_cpu(None, configured).len() == 0,
        running_cpu(Some(started), configured).len() == 1,
        running_cpu(Some(started), configured)[0].kind == ItemKind::Warn <==> started != configured,
        crate::text::begins_with(
            running_cpu(Some(started), configured)[0].label,
            "Running: "@ + started.name(),
        ),
{
    let t = "Running: "@ + started.name();
    crate::text::law_substrings(t, t, " (Stop to apply edits)"@);
    assert(t.take(t.len() as int) =~= t);
}

/// Every size that is offered for the whole memory is offered once, in order, under its own
/// number of megabytes, and can be picked exactly while no machine runs.
pub proof fn law_offered_sizes(s: MemoryState, n: int)
    requires
        0 <= n <= s.presets@.len(),
    ensures
        preset_items(s, n).len() == n,
        forall|i: int|
            0 <= i < n ==> {
                let x = #[trigger] preset_items(s, n)[i];
                &&& x.label == crate::text::decimal(s.presets@[i] as nat) + " MB"@
                &&& x.action == Action::SetRam(s.presets@[i])
                &&& x.enabled == !s.running
            },
    decreases n,
{
    if n > 0 {
        law_offered_sizes(s, n - 1);
        assert forall|i: int| 0 <= i < n implies ({
            let x = #[trigger] preset_items(s, n)[i];
            &&& x.label == crate::text::decimal(s.presets@[i] as nat) + " MB"@
            &&& x.action == Action::SetRam(s.presets@[i])
            &&& x.enabled == !s.running
        }) by {
            if i < n - 1 {
                assert(preset_items(s, n)[i] == preset_items(s, n - 1)[i]);
            }
        }
    }
}

/// Each bank has a heading with its size and then the six sizes that a bank can have, from 0
/// to 128 megabytes, which can be picked exactly while no machine runs.
pub proof fn law_sizes_of_banks(s: MemoryState, bank: int)
    requires
        0 <= bank < 4,
    ensures
        bank_items(s, 4).len() == 28,
        bank_items(s, 4)[7 * bank].label == "Bank "@ + crate::text::decimal(bank as nat) + ": "@
            + crate::text::decimal(s.banks@[bank] as nat) + " MB"@,
        forall|k: int|
            1 <= k <= 6 ==> {
                let x = #[trigger] bank_items(s, 4)[7 * bank + k];
                let mb = if k == 1 {
                    0u32
                } else if k == 2 {
                    8
                } else if k == 3 {
                    16
                } else if k == 4 {
                    32
                } else if k == 5 {
                    64
                } else {
                    128
                };
                &&& x.action == Action::SetBank(bank as usize, mb)
                &&& x.label == crate::text::decimal(mb as nat) + " MB"@
                &&& x.enabled == !s.running
            },
{
    lemma_bank_menus(s, 4, bank);
    let text = "Bank "@ + crate::text::decimal(bank as nat) + ": "@;
    let size = crate::text::decimal(s.banks@[bank] as nat);
    assert(text + (size + " MB"@) =~= text + size + " MB"@);
    lemma_bank_sizes(bank as usize, s.running);
    let all = size_items(bank as usize, s.running, 6);
    assert forall|k: int| 1 <= k <= 6 implies #[trigger] bank_items(s, 4)[7 * bank + k] == all[k
        - 1] by {}
}

/// The sizes that a bank can have.
proof fn lemma_bank_sizes(bank: usize, running: bool)
    ensures
        crate::config::VALID_BANK_SIZES@ == seq![0u32, 8, 16, 32, 64, 128],
        size_items(bank, running, 6).len() == 6,
        forall|k: int|
            0 <= k < 6 ==> {
                let x = #[trigger] size_items(bank, running, 6)[k];
                &&& x.action == Action::SetBank(bank, crate::config::VALID_BANK_SIZES@[k])
                &&& x.label == crate::text::decimal(crate::config::VALID_BANK_SIZES@[k] as nat)
                    + " MB"@
                &&& x.enabled == !running
            },
{
    assert(crate::config::VALID_BANK_SIZES@ =~= seq![0u32, 8, 16, 32, 64, 128]);
    reveal_with_fuel(size_items, 7);
}

proof fn lemma_bank_menus(s: MemoryState, n: int, bank: int)
    requires
        0 <= bank < n <= 4,
    ensures
        bank_items(s, n).len() == 7 * n,
        bank_items(s, n)[7 * bank].label == "Bank "@ + crate::text::decimal(bank as nat) + ": "@ + (
        crate::text::decimal(s.banks@[bank] as nat) + " MB"@),
        forall|k: int|
            1 <= k <= 6 ==> #[trigger] bank_items(s, n)[7 * bank + k] == size_items(
                bank as usize,
                s.running,
                6,
            )[k - 1],
    decreases n,
{
    lemma_bank_sizes((n - 1) as usize, s.running);
    let front = bank_items(s, n - 1);
    if n > 1 {
        lemma_bank_menus(s, n - 1, if bank < n - 1 {
            bank
        } else {
            0
        });
    }
    assert(front.len() == 7 * (n - 1));
    let head = line(
        ItemKind::Submenu,
        "Bank "@ + crate::text::decimal((n - 1) as nat) + ": "@ + megabyte_text(s.banks@[n - 1]),
    );
    let sizes = size_items((n - 1) as usize, s.running, 6);
    assert(bank_items(s, n) == front.push(head) + sizes);
    if bank < n - 1 {
        assert(bank_items(s, n)[7 * bank] == front[7 * bank]);
        assert forall|k: int| 1 <= k <= 6 implies #[trigger] bank_items(s, n)[7 * bank + k]
            == size_items(bank as usize, s.running, 6)[k - 1] by {
            assert(front[7 * bank + k] == bank_items(s, n)[7 * bank + k]);
        }
    }
}

/// How the picture is fitted: exactly one of the two fits is marked, and the ratio of the sides
/// can be kept exactly where the picture is stretched.
pub proof fn law_the_view_menu(fullscreen: bool, scaling: DisplayScaling, keep_aspect: bool)
    ensures
        ({
            let v = view_items(fullscreen, scaling, keep_aspect);
            let stretch = scaling == DisplayScaling::Stretch;
            &&& v.len() == 10
            &&& v[0].action == Action::ToggleFullscreen && v[0].enabled
            &&& v[0].label == if fullscreen {
                "Exit fullscreen (F11)"@
            } else {
                "Fullscreen (F11)"@
            }
            &&& v[1].action == Action::UiScale && v[8].action == Action::VmScale
            &&& v[5].action == Action::NearestInteger && v[5].label == "Nearest integer"@
                && v[5].selected == !stretch && v[5].enabled
            &&& v[6].action == Action::Stretch && v[6].label == "Stretch"@ && v[6].selected
                == stretch && v[6].enabled
            &&& v[7].action == Action::KeepAspect && v[7].label == "Keep aspect ratio"@
                && v[7].enabled == stretch && v[7].selected == keep_aspect
        }),
{
}

/// The buttons above the menus: exactly one of start and stop, by whether a machine runs, and
/// the two on states, which need one that does.
pub proof fn law_the_controls(running: bool)
    ensures
        ({
            let v = control_items(running);
            &&& v.len() == 3
            &&& v[0].enabled && v[0].action == if running {
                Action::Stop
            } else {
                Action::Start
            }
            &&& v[1].action == Action::SaveState && v[1].enabled == running
            &&& v[2].action == Action::RestoreState && v[2].enabled == running
        }),
{
}

/// The capture is spoken of only while a machine runs; it can be started exactly while it does
/// not last, and while it does the keys that end it are named.
pub proof fn law_the_capture(running: bool, captured: bool, release: Seq<char>)
    ensures
        capture_items(running, captured, release).len() == 0 <==> !running,
        holds(capture_items(running, captured, release), Action::Capture) <==> running && !captured,
        running && captured ==> capture_items(running, captured, release)[1].label
            == "To disable: "@ + release,
{
    let v = capture_items(running, captured, release);
    if running && !captured {
        assert(v[1].action == Action::Capture);
    }
}

/// What the emulator is told: only starting, stopping, resetting and leaving tell it anything.
/// A reset stops at once and starts again; leaving saves first what is not saved.
pub proof fn law_what_the_emulator_is_told(a: Action, dirty: bool)
    ensures
        commands_of(Action::Start, dirty) == seq![Command::StartEmulator],
        commands_of(Action::Stop, dirty) == seq![Command::RequestStop],
        commands_of(Action::Reset, dirty) == seq![Command::SendStop, Command::StartEmulator],
        commands_of(Action::Quit, false) == seq![Command::CloseWindow],
        commands_of(Action::Quit, true) == seq![Command::FlushMachine, Command::CloseWindow],
        commands_of(a, dirty).len() > 0 <==> a == Action::Start || a == Action::Stop || a
            == Action::Reset || a == Action::Quit,
{
}

/// The machines that are left are the others, in the order that they had.
pub proof fn law_deletion_keeps_the_order(machines: Seq<Seq<char>>, name: Seq<char>)
    ensures
        without(machines, name) == machines.filter(|m: Seq<char>| m != name),
    decreases machines.len(),
{
    reveal(Seq::filter);
    if machines.len() > 0 {
        law_deletion_keeps_the_order(machines.drop_last(), name);
    }
}

/// What a drive is told while a machine runs: a disc that is inserted, or attached with its
/// drive, is loaded and mounted; one that is ejected is taken out; a remount mounts again. No
/// other pick tells it anything. Each names its own slot.
pub proof fn law_what_drives_are_told(id: u8, path: String, remount: bool)
    ensures
        drive_command(MenuPick::Change(ScsiAction::InsertDisc { id, path })) == command_view(
            Some(DriveCommand::LoadDisc { id, path, remount: true }),
        ),
        drive_command(MenuPick::Change(ScsiAction::AttachCdromWithDisc { id, path }))
            == command_view(Some(DriveCommand::LoadDisc { id, path, remount: true })),
        drive_command(MenuPick::Change(ScsiAction::Eject { id })) == command_view(
            Some(DriveCommand::EjectCdrom { id }),
        ),
        drive_command(MenuPick::RemountInIrix { id }) == command_view(
            Some(DriveCommand::RemountCdrom { id }),
        ),
        drive_command(MenuPick::Nothing) is None,
        drive_command(MenuPick::CreateBlank { id }) is None,
        drive_command(MenuPick::Change(ScsiAction::AttachHdd { id, path })) is None,
        drive_command(MenuPick::Change(ScsiAction::AttachEmptyCdrom { id })) is None,
        drive_command(MenuPick::Change(ScsiAction::Detach { id })) is None,
        drive_command(MenuPick::Change(ScsiAction::ToggleOverlay { id })) is None,
        command_view(Some(DriveCommand::LoadDisc { id, path, remount })) == Some(
            (id, Some(path@), remount),
        ),
        command_view(Some(DriveCommand::EjectCdrom { id })) == Some(
            (id, None::<Seq<char>>, false),
        ),
        command_view(Some(DriveCommand::RemountCdrom { id })) == Some(
            (id, None::<Seq<char>>, true),
        ),
        command_view(None) is None,
{
}

/// What the user is told of a pick: a disc that is inserted while no machine runs is for the
/// next start, and a remount needs a machine that runs; of anything else nothing is said here.
pub proof fn law_what_is_said_of_a_pick(pick: MenuPick, running: bool)
    ensures
        pick_toast(pick, running) is Some <==> pick is RemountInIrix || (!running && (
        pick matches MenuPick::Change(a) && a is InsertDisc)),
        pick matches MenuPick::RemountInIrix { id } ==> (running ==> (pick_toast(
            pick,
            running,
        ) matches Some(t) && crate::text::begins_with(
            t,
            "SCSI #"@ + crate::text::decimal(id as nat),
        ))),
        pick is RemountInIrix && !running ==> pick_toast(pick, running) == Some(
            "Mount /CDROM: start the VM first"@,
        ),
{
    if let MenuPick::RemountInIrix { id } = pick {
        let t = "SCSI #"@ + crate::text::decimal(id as nat);
        crate::text::law_substrings(
            t,
            t,
            ": remount sent \u{2014} keep a shell focused on the console"@,
        );
    }
}

/// Which disks may have an overlay: those with an image that are no CD-ROM drive and no
/// scratch volume; a CHD always, any other where copy-on-write is configured. They are listed by
/// id, each with its own path.
pub proof fn law_which_disks_may_have_an_overlay(
    devs: Map<u8, crate::config::DeviceView>,
    windows: bool,
    n: int,
)
    requires
        0 <= n <= 256,
    ensures
        forall|i: int|
            0 <= i < cow_list(devs, windows, n).len() ==> {
                let (id, path, chd) = #[trigger] cow_list(devs, windows, n)[i];
                &&& id < n && devs.contains_key(id) && path == devs[id].path
                &&& chd == crate::chd_disk::chd_on(path, windows)
                &&& !devs[id].cdrom && !devs[id].scratch
                &&& crate::text::trimmed(path).len() > 0
                &&& chd || devs[id].overlay
            },
        forall|id: u8|
            id < n && #[trigger] devs.contains_key(id) && !devs[id].cdrom && !devs[id].scratch
                && crate::text::trimmed(devs[id].path).len() > 0 && (devs[id].overlay
                || crate::chd_disk::chd_on(devs[id].path, windows)) ==> cow_list(
                devs,
                windows,
                n,
            ).contains((id, devs[id].path, crate::chd_disk::chd_on(devs[id].path, windows))),
        forall|i: int, j: int|
            0 <= i < j < cow_list(devs, windows, n).len() ==> (#[trigger] cow_list(
                devs,
                windows,
                n,
            )[i]).0 < (#[trigger] cow_list(devs, windows, n)[j]).0,
    decreases n,
{
    if n > 0 {
        law_which_disks_may_have_an_overlay(devs, windows, n - 1);
        let front = cow_list(devs, windows, n - 1);
        let all = cow_list(devs, windows, n);
        let last = (n - 1) as u8;
        assert forall|i: int| 0 <= i < front.len() implies all[i] == #[trigger] front[i] by {}
        assert forall|id: u8|
            id < n && #[trigger] devs.contains_key(id) && !devs[id].cdrom && !devs[id].scratch
                && crate::text::trimmed(devs[id].path).len() > 0 && (devs[id].overlay
                || crate::chd_disk::chd_on(devs[id].path, windows)) implies all.contains(
            (id, devs[id].path, crate::chd_disk::chd_on(devs[id].path, windows)),
        ) by {
            let x = (id, devs[id].path, crate::chd_disk::chd_on(devs[id].path, windows));
            if id == last {
                assert(all[front.len() as int] == x);
            } else {
                let k = choose|k: int| 0 <= k < front.len() && #[trigger] front[k] == x;
                assert(front.contains(x));
                assert(all[k] == x);
            }
        }
        assert forall|i: int| 0 <= i < all.len() implies ({
            let (id, path, chd) = #[trigger] all[i];
            &&& id < n && devs.contains_key(id) && path == devs[id].path
            &&& chd == crate::chd_disk::chd_on(path, windows)
            &&& !devs[id].cdrom && !devs[id].scratch
            &&& crate::text::trimmed(path).len() > 0
            &&& chd || devs[id].overlay
        }) by {
            if i < front.len() {
                assert(all[i] == front[i]);
            }
        }
        assert forall|i: int, j: int| 0 <= i < j < all.len() implies (#[trigger] all[i]).0 < (
        #[trigger] all[j]).0 by {
            assert(all[i] == front[i]);
            if j < front.len() {
                assert(all[j] == front[j]);
            }
        }
    }
}

/// The indicator speaks of the network of a running machine: the bridged one names its
/// interface, `auto` where none is configured, in what it explains.
pub proof fn law_the_network_indicator(
    running: bool,
    i: Option<String>,
    net: LaunchedNet,
    state: NetState,
)
    ensures
        badge(false, net) == "NET"@ && badge(running, None) == "NET"@,
        badge(true, Some((NetMode::Pcap, i))) == "PCAP"@,
        badge(true, Some((NetMode::Nat, i))) == "NAT"@,
        badge_tip(false, net, state) == badge_tip(running, None, state),
        state != NetState::Off ==> crate::text::begins_with(
            badge_tip(true, Some((NetMode::Pcap, i)), state),
            "Bridged (PCAP) on "@ + shown_interface(i),
        ),
        shown_interface(None) == "auto"@,
        i matches Some(s) ==> shown_interface(i) == if s@.len() == 0 {
            "auto"@
        } else {
            s@
        },
{
    let t = "Bridged (PCAP) on "@ + shown_interface(i);
    crate::text::law_substrings(t, t, ": guest is carrying IP traffic."@);
    crate::text::law_substrings(
        t,
        t,
        ": no guest IP traffic yet.\nCheck the guest's IP / DHCP \u{2014} wired connections only."@,
    );
}

/// The status names the processor that a running machine was started with, else the
/// configured one.
pub proof fn law_the_named_processor(running: bool, started: CpuModel, configured: CpuModel)
    ensures
        named_cpu(true, Some(started), configured) == started,
        named_cpu(false, Some(started), configured) == configured,
        named_cpu(running, None, configured) == configured,
{
}

/// Which tabs have a button: none while the editor is closed; else the network and the video
/// input, the one for debugging unless the build has none, and the one for automation unless the
/// build is for the store.
pub proof fn law_tabs_with_a_button(editor: bool, lightning: bool, appstore: bool)
    ensures
        ({
            let v = quick_tabs_of(editor, lightning, appstore);
            &&& !editor ==> v.len() == 0
            &&& editor ==> {
                &&& v[0] == QuickTab::Network && v[1] == QuickTab::VideoIn
                &&& v.contains(QuickTab::Debug) <==> !lightning
                &&& v.contains(QuickTab::Ci) <==> !appstore
                &&& v.len() == 4 - (if lightning {
                    1int
                } else {
                    0
                }) - (if appstore {
                    1int
                } else {
                    0
                })
            }
        }),
{
    let v = quick_tabs_of(editor, lightning, appstore);
    if editor && !lightning {
        assert(v[2] == QuickTab::Debug);
    }
    if editor && !appstore {
        assert(v[v.len() - 1] == QuickTab::Ci);
    }
}

/// What is said of a build: each part is on or off, and the compiler of drawing commands is off
/// where it is not built in or the host turned it off.
pub proof fn law_what_is_said_of_a_build(b: BuildFeatures, jit_off: bool)
    ensures
        on_off(true) == "on"@ && on_off(false) == "off"@,
        jit_text(true, false) == "on"@,
        jit_text(true, true) == "off (sandbox)"@,
        jit_text(false, jit_off) == "off"@,
        ({
            let v = feature_items(b, jit_off);
            &&& v.len() == 6
            &&& v[1].label == "  chd:       "@ + on_off(b.chd)
            &&& v[2].label == "  camera:    "@ + on_off(b.camera)
            &&& v[3].label == "  rex-jit:   "@ + jit_text(b.rex_jit, jit_off)
            &&& b.lightning ==> v[4].label == "  lightning: "@ + "on (no debug)"@
            &&& !b.lightning ==> v[4].label == "  lightning: "@ + "off"@
            &&& v[5].label == "  ultra64:   "@ + on_off(b.ultra64)
        }),
{
}

/// The machines to switch to stand in the file menu behind its first two entries; without any,
/// a note stands there.
pub proof fn law_machines_in_the_file_menu(s: FileState)
    ensures
        s.machines@.len() > 0 ==> file_items(s).len() > 2 + s.machines@.len() && file_items(
            s,
        ).subrange(2, 2 + s.machines@.len() as int) == machine_items(s, s.machines@.len() as int),
        s.machines@.len() == 0 ==> file_items(s)[2].label == "(no saved machines yet)"@,
{
    let n = s.machines@.len() as int;
    law_machines_to_switch_to(s, n);
    if n > 0 {
        assert(switch_items(s).subrange(2, 2 + n) =~= machine_items(s, n));
        assert(file_items(s).subrange(2, 2 + n) =~= switch_items(s).subrange(2, 2 + n));
    }
}

/// The memory menu ends with the banks; the sizes for the whole memory stand before them, under
/// their heading, and the memory that is configured is named first.
pub proof fn law_the_memory_menu(s: MemoryState)
    ensures
        ({
            let v = memory_items(s);
            let p = s.presets@.len() as int;
            let end = v.len() - 28;
            &&& end >= p + 2
            &&& v.skip(end) == bank_items(s, 4)
            &&& v.subrange(end - 2 - p, end - 2) == preset_items(s, p)
            &&& v[0].label == "Config: "@ + s.summary@
        }),
        s.started is None ==> running_ram(s).len() == 0,
        s.started matches Some((banks, text)) ==> running_ram(s).len() == 1 && (running_ram(
            s,
        )[0].kind == ItemKind::Warn <==> banks@ != s.banks@),
{
    let p = s.presets@.len() as int;
    law_offered_sizes(s, p);
    lemma_bank_menus(s, 4, 0);
    let v = memory_items(s);
    let end = v.len() - 28;
    assert(v.skip(end) =~= bank_items(s, 4));
    assert(v.subrange(end - 2 - p, end - 2) =~= preset_items(s, p));
}

/// The credits hold no entry but links.
proof fn lemma_credits_only(authors: Seq<String>, links: Seq<Link>, a: Action)
    requires
        !(a is OpenLink) && a != Action::Nothing,
    ensures
        !holds(credit_items(authors, links), a),
        forall|label: Seq<char>, on: bool| #[trigger]
            shown_as(credit_items(authors, links), a, label, on),
{
    let e = Seq::<ItemView>::empty();
    lemma_nothing(a);
    let head = line(ItemKind::Strong, "Authors"@);
    let sep = line(ItemKind::Separator, ""@);
    let names = author_items(authors, authors.len() as int);
    let rows = link_items(links, links.len() as int);
    lemma_pushed(e, head, a);
    lemma_authors_only(authors, authors.len() as int, a);
    lemma_links_only(links, links.len() as int, a);
    lemma_joined(e.push(head), names, a);
    lemma_pushed(e.push(head) + names, sep, a);
    lemma_joined((e.push(head) + names).push(sep), rows, a);
    assert(credit_items(authors, links) == (e.push(head) + names).push(sep) + rows);
}

proof fn lemma_authors_only(authors: Seq<String>, n: int, a: Action)
    requires
        a != Action::Nothing,
    ensures
        !holds(author_items(authors, n), a),
        forall|label: Seq<char>, on: bool| #[trigger]
            shown_as(author_items(authors, n), a, label, on),
    decreases n,
{
    if 0 < n <= authors.len() {
        lemma_authors_only(authors, n - 1, a);
        lemma_pushed(author_items(authors, n - 1), author_items(authors, n).last(), a);
    }
}

proof fn lemma_links_only(links: Seq<Link>, n: int, a: Action)
    requires
        !(a is OpenLink),
    ensures
        !holds(link_items(links, n), a),
        forall|label: Seq<char>, on: bool| #[trigger]
            shown_as(link_items(links, n), a, label, on),
    decreases n,
{
    if 0 < n <= links.len() {
        lemma_links_only(links, n - 1, a);
        lemma_pushed(link_items(links, n - 1), link_items(links, n).last(), a);
    }
}

/// What the help menu says of one action, from its parts.
#[verifier::spinoff_prover]
#[verifier::rlimit(50)]
proof fn lemma_help_menu(
    running: bool,
    version: Seq<char>,
    authors: Seq<String>,
    links: Seq<Link>,
    b: BuildFeatures,
    jit_off: bool,
    a: Action,
)
    requires
        !(a is OpenLink) && a != Action::Nothing,
    ensures
        holds(help_items(running, version, authors, links, b, jit_off), a) == {
            ||| a == Action::TestCamera || a == Action::SerialConsole || a == Action::HelpInfo
            ||| a == Action::NfsHelp || a == Action::Licenses || a == Action::Privacy
            ||| a == Action::Ultra64Help && b.ultra64 && !b.appstore
        },
        a == Action::TestCamera ==> shown_as(
            help_items(running, version, authors, links, b, jit_off),
            a,
            "\u{1f4f7} Test Camera\u{2026}"@,
            running,
        ),
        a == Action::SerialConsole ==> shown_as(
            help_items(running, version, authors, links, b, jit_off),
            a,
            "Serial console\u{2026}"@,
            running,
        ),
{
    let e = Seq::<ItemView>::empty();
    lemma_nothing(a);
    let sep = line(ItemKind::Separator, ""@);
    let x1 = line(ItemKind::Strong, "IRIS \u{2014} SGI Indy (MIPS R4400) Emulator"@);
    let x2 = line(ItemKind::Plain, "Version "@ + version);
    let x4 = line(ItemKind::Strong, "Diagnostics"@);
    let x5 = button("\u{1f4f7} Test Camera\u{2026}"@, running, Action::TestCamera);
    let x6 = button("Serial console\u{2026}"@, running, Action::SerialConsole);
    let x7 = button("\u{2139} How camera & networking work\u{2026}"@, true, Action::HelpInfo);
    let x8 = button("\u{1f4c2} Mount the shared folder in IRIX\u{2026}"@, true, Action::NfsHelp);
    let v1 = e.push(x1);
    let v2 = v1.push(x2);
    let v3 = v2.push(sep);
    let v4 = v3.push(x4);
    let v5 = v4.push(x5);
    let v6 = v5.push(x6);
    let v7 = v6.push(x7);
    let v8 = v7.push(x8);
    lemma_pushed(e, x1, a);
    lemma_pushed(v1, x2, a);
    lemma_pushed(v2, sep, a);
    lemma_pushed(v3, x4, a);
    lemma_pushed(v4, x5, a);
    lemma_pushed(v5, x6, a);
    lemma_pushed(v6, x7, a);
    lemma_pushed(v7, x8, a);
    let u = button(
        "\u{1f3ae} N64 development board (Ultra64)\u{2026}"@,
        true,
        Action::Ultra64Help,
    );
    lemma_pushed(v8, u, a);
    let w0 = if b.ultra64 && !b.appstore {
        v8.push(u)
    } else {
        v8
    };
    let y2 = line(ItemKind::Strong, "Legal"@);
    let y3 = button("Licenses\u{2026}"@, true, Action::Licenses);
    let y4 = button("Privacy policy\u{2026}"@, true, Action::Privacy);
    let w1 = w0.push(sep);
    let w2 = w1.push(y2);
    let w3 = w2.push(y3);
    let w4 = w3.push(y4);
    let w5 = w4.push(sep);
    lemma_pushed(w0, sep, a);
    lemma_pushed(w1, y2, a);
    lemma_pushed(w2, y3, a);
    lemma_pushed(w3, y4, a);
    lemma_pushed(w4, sep, a);
    lemma_credits_only(authors, links, a);
    let credits = credit_items(authors, links).push(sep);
    lemma_pushed(credit_items(authors, links), sep, a);
    lemma_joined(w5, credits, a);
    let f = feature_items(b, jit_off);
    assert(!holds(f, a));
    assert forall|label: Seq<char>, on: bool| #[trigger] shown_as(f, a, label, on) by {}
    lemma_joined(w5 + credits, f, a);
    let all = help_items(running, version, authors, links, b, jit_off);
    assert(all == w5 + credits + f);
}

/// What the help menu offers: the camera is tested and the console shown on a running machine
/// alone; the rest can always be picked, and the board is spoken of exactly in a build that has
/// it and is not for the store.
pub proof fn law_the_help_menu(
    running: bool,
    version: Seq<char>,
    authors: Seq<String>,
    links: Seq<Link>,
    b: BuildFeatures,
    jit_off: bool,
)
    ensures
        ({
            let v = help_items(running, version, authors, links, b, jit_off);
            &&& offers(v, Action::TestCamera, "\u{1f4f7} Test Camera\u{2026}"@, running)
            &&& offers(v, Action::SerialConsole, "Serial console\u{2026}"@, running)
            &&& holds(v, Action::HelpInfo) && holds(v, Action::NfsHelp)
            &&& holds(v, Action::Licenses) && holds(v, Action::Privacy)
            &&& holds(v, Action::Ultra64Help) <==> b.ultra64 && !b.appstore
            &&& v.len() > 2 && v[1].label == "Version "@ + version
        }),
{
    lemma_help_menu(running, version, authors, links, b, jit_off, Action::TestCamera);
    lemma_help_menu(running, version, authors, links, b, jit_off, Action::SerialConsole);
    lemma_help_menu(running, version, authors, links, b, jit_off, Action::HelpInfo);
    lemma_help_menu(running, version, authors, links, b, jit_off, Action::NfsHelp);
    lemma_help_menu(running, version, authors, links, b, jit_off, Action::Licenses);
    lemma_help_menu(running, version, authors, links, b, jit_off, Action::Privacy);
    lemma_help_menu(running, version, authors, links, b, jit_off, Action::Ultra64Help);
}

/// The links are listed in order under their labels, and the authors under their names.
pub proof fn law_credits(authors: Seq<String>, links: Seq<Link>, n: int)
    requires
        0 <= n,
    ensures
        n <= authors.len() ==> author_items(authors, n).len() == n && forall|i: int|
            0 <= i < n ==> (#[trigger] author_items(authors, n)[i]).label == authors[i]@,
        n <= links.len() ==> link_items(links, n).len() == n && forall|i: int|
            0 <= i < n ==> (#[trigger] link_items(links, n)[i]).label == links[i].label@
                && link_items(links, n)[i].action == Action::OpenLink(i as usize),
    decreases n,
{
    if n > 0 {
        law_credits(authors, links, n - 1);
        if n <= authors.len() {
            assert forall|i: int| 0 <= i < n implies (#[trigger] author_items(authors, n)[i]).label
                == authors[i]@ by {
                if i < n - 1 {
                    assert(author_items(authors, n)[i] == author_items(authors, n - 1)[i]);
                }
            }
        }
        if n <= links.len() {
            assert forall|i: int| 0 <= i < n implies (#[trigger] link_items(links, n)[i]).label
                == links[i].label@ && link_items(links, n)[i].action == Action::OpenLink(
                i as usize,
            ) by {
                if i < n - 1 {
                    assert(link_items(links, n)[i] == link_items(links, n - 1)[i]);
                }
            }
        }
    }
}

/// Which entries explain themselves: of those that can be picked the ones on granting a folder,
/// the camera, the share, the board, the licenses, the console and the reset of the NVRAM; of the
/// others the ones on renaming, on memory and on the camera, and in the help menu the console.
pub proof fn law_what_entries_explain(a: Action, help: bool, nvram: Seq<char>)
    ensures
        hover_of(a, true, help, nvram) is Some <==> {
            ||| a == Action::GrantFolder || a == Action::TestCamera || a == Action::NfsHelp
            ||| a == Action::Ultra64Help || a == Action::Licenses || a == Action::ResetNvram
            ||| a == Action::SerialConsole
        },
        hover_of(a, false, help, nvram) is Some <==> {
            ||| a == Action::RenameCurrent || a is SetRam || a is SetBank
            ||| a == Action::TestCamera || (a == Action::SerialConsole && help)
        },
        hover_of(Action::TestCamera, true, help, nvram) == Some(
            "Preview the host camera used for the emulated IndyCam"@,
        ),
        hover_of(Action::NfsHelp, true, help, nvram) == Some(
            "The exact mount command for the NFS share"@,
        ),
        hover_of(Action::Ultra64Help, true, help, nvram) == Some(
            "How to set up the N64 devkit and run ROMs with gload"@,
        ),
        hover_of(Action::Licenses, true, help, nvram) == Some(
            "BSD 3-Clause (IRIS, and the CHD backend when built in)"@,
        ),
        hover_of(Action::SerialConsole, true, true, nvram) == Some(
            "Connect to the emulator's loopback serial server (127.0.0.1:8881)"@,
        ),
        hover_of(Action::SerialConsole, true, false, nvram) == Some(
            "View the IRIX serial console (ttyd1) over the loopback serial server"@,
        ),
{
}

/// An entry that cannot be picked says why where that is not plain: there is no active
/// machine, memory is changed on a stopped one, and a camera or a console needs a running one.
pub proof fn law_what_entries_that_are_off_say(help: bool, nvram: Seq<char>, mb: u32, bank: usize)
    ensures
        hover_of(Action::RenameCurrent, false, help, nvram) == Some("No active machine"@),
        hover_of(Action::SetRam(mb), false, help, nvram) == Some("Stop the VM to change RAM"@),
        hover_of(Action::SetBank(bank, mb), false, help, nvram) == Some(
            "Stop the VM to change RAM"@,
        ),
        hover_of(Action::TestCamera, false, help, nvram) == Some("Start a machine first"@),
        hover_of(Action::SerialConsole, false, true, nvram) == Some("Start a machine first"@),
        hover_of(Action::SerialConsole, false, false, nvram) is None,
        hover_of(Action::SetRam(mb), true, help, nvram) is None,
        hover_of(Action::RenameCurrent, true, help, nvram) is None,
        hover_of(Action::ResetNvram, true, help, nvram) matches Some(t)
            && crate::text::has_substring(t, nvram),
{
    let front = "Restore this machine's NVRAM to defaults and assign a fresh Ethernet MAC.\n"@;
    let none = Seq::<char>::empty();
    crate::text::law_substrings(front, nvram, none);
    assert(front + nvram + none =~= front + nvram);
}

/// What the user reads of how the machine stands, and of the sizes of its banks.
pub proof fn law_states_and_banks_in_words(banks: Seq<u32>)
    requires
        banks.len() == 4,
    ensures
        RunState::Halted.text() == "halted \u{2014} safe to stop"@,
        RunState::Prom.text() == "PROM"@,
        RunState::Running.text() == "IRIX running"@,
        RunState::Stopped.text() == "stopped"@,
        banks_text(banks) == "["@ + crate::text::decimal(banks[0] as nat) + ", "@
            + crate::text::decimal(banks[1] as nat) + ", "@ + crate::text::decimal(
            banks[2] as nat,
        ) + ", "@ + crate::text::decimal(banks[3] as nat) + "]"@,
{
}

/// Entries and candidates are taken for what their fields say.
pub proof fn law_views_of_entries(x: Item, v: Seq<Item>, c: CowCandidate, w: Seq<CowCandidate>)
    ensures
        x@.kind == x.kind && x@.label == x.label@ && x@.enabled == x.enabled,
        x@.selected == x.selected && x@.depth == x.depth && x@.action == x.action,
        items(v).len() == v.len(),
        forall|i: int| 0 <= i < v.len() ==> #[trigger] items(v)[i] == v[i]@,
        candidate_view(c) == (c.id, c.base@, c.chd),
        candidates_view(w).len() == w.len(),
        forall|i: int| 0 <= i < w.len() ==> #[trigger] candidates_view(w)[i] == candidate_view(w[i]),
{
}

} // verus!
