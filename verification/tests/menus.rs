use iris::classic_ui::capture_controls;
use iris::classic_ui::choose_scaling;
use iris::classic_ui::commands;
use iris::classic_ui::cow_candidates;
use iris::classic_ui::cow_label;
use iris::classic_ui::cow_menu;
use iris::classic_ui::cpu_toast;
use iris::classic_ui::delete_current;
use iris::classic_ui::dirty_line;
use iris::classic_ui::edit;
use iris::classic_ui::editor_heading;
use iris::classic_ui::editor_label;
use iris::classic_ui::file_menu;
use iris::classic_ui::help_menu;
use iris::classic_ui::hover_text;
use iris::classic_ui::jit_state;
use iris::classic_ui::machine_controls;
use iris::classic_ui::machine_line;
use iris::classic_ui::machine_menu;
use iris::classic_ui::memory_menu;
use iris::classic_ui::net_badge;
use iris::classic_ui::nvram_toast;
use iris::classic_ui::offers_net_check;
use iris::classic_ui::on_pick;
use iris::classic_ui::pending_cpu_line;
use iris::classic_ui::quick_tabs;
use iris::classic_ui::ram_toast;
use iris::classic_ui::raw_overlay_path;
use iris::classic_ui::run_state;
use iris::classic_ui::shows_mips;
use iris::classic_ui::shows_toast;
use iris::classic_ui::view_menu;
use iris::classic_ui::Action;
use iris::classic_ui::BuildFeatures;
use iris::classic_ui::Command;
use iris::classic_ui::CowMenu;
use iris::classic_ui::DisplayScaling;
use iris::classic_ui::DriveCommand;
use iris::classic_ui::FileState;
use iris::classic_ui::Item;
use iris::classic_ui::ItemKind;
use iris::classic_ui::Link;
use iris::classic_ui::MemoryState;
use iris::classic_ui::MenuPick;
use iris::classic_ui::NetState;
use iris::classic_ui::QuickTab;
use iris::classic_ui::RunState;
use iris::config::CpuModel;
use iris::config::MachineProfile;
use iris::config::NetMode;
use iris::config::ScsiDeviceConfig;
use iris::config::ScsiKind;
use iris::machine_config::MachineConfig;
use iris::scsi_menu::apply;
use iris::scsi_menu::pick_disk;
use iris::scsi_menu::pick_iso;
use iris::scsi_menu::render_label;
use iris::scsi_menu::ScsiAction;

fn labels(items: &[Item]) -> Vec<&str> {
    items.iter().map(|i| i.label.as_str()).collect()
}

fn find<'a>(items: &'a [Item], action: Action) -> &'a Item {
    items.iter().find(|i| i.action == action).unwrap()
}

fn names(list: &[&str]) -> Vec<String> {
    list.iter().map(|s| s.to_string()).collect()
}

fn file_state() -> FileState {
    FileState {
        machines: names(&["indy", "lab"]),
        active: Some("lab".to_string()),
        bundled: false,
        appstore: false,
        folders: vec![],
    }
}

#[test]
fn the_file_menu_marks_the_active_machine() {
    let menu = file_menu(&file_state());
    assert_eq!(
        labels(&menu),
        vec![
            "New machine\u{2026}",
            "Switch to machine",
            "indy",
            "lab",
            "Rename current\u{2026}",
            "Delete current machine",
            "",
            "Import iris.toml\u{2026}",
            "Export current to iris.toml\u{2026}",
            "Prepare for premiere\u{2026}",
            "",
            "Quit",
        ]
    );
    assert!(find(&menu, Action::SwitchTo(1)).selected);
    assert!(!find(&menu, Action::SwitchTo(0)).selected);
    assert!(find(&menu, Action::DeleteCurrent).enabled);
}

#[test]
fn the_file_menu_follows_the_build() {
    let state = FileState {
        machines: vec![],
        active: None,
        bundled: true,
        appstore: true,
        folders: vec![("/disks".to_string(), true), ("/old".to_string(), false)],
    };
    let menu = file_menu(&state);
    assert_eq!(
        labels(&menu),
        vec![
            "New machine\u{2026}",
            "Switch to machine",
            "(no saved machines yet)",
            "Rename current\u{2026}",
            "Delete current machine",
            "",
            "Disk folder access",
            "Grant a disk folder\u{2026}",
            "/disks",
            "/old",
            "",
            "Quit",
        ]
    );
    assert!(!find(&menu, Action::RenameCurrent).enabled);
    assert!(find(&menu, Action::Folder(0)).selected);
    assert!(!find(&menu, Action::Folder(1)).selected);
}

#[test]
fn a_running_machine_can_be_stopped_but_not_changed() {
    let menu = machine_menu(true, CpuModel::R5000, Some(CpuModel::R4400));
    assert!(!find(&menu, Action::Start).enabled && find(&menu, Action::Stop).enabled);
    assert!(!find(&menu, Action::SetCpu(CpuModel::R4400)).enabled);
    assert!(find(&menu, Action::SetCpu(CpuModel::R5000)).selected);
    assert!(menu.iter().any(|i| i.kind == ItemKind::Warn
        && i.label == "Running: MIPS R4400 (Stop to apply edits)"));
    let menu = machine_menu(true, CpuModel::R4400, Some(CpuModel::R4400));
    assert!(menu.iter().any(|i| i.kind == ItemKind::Weak && i.label == "Running: MIPS R4400"));
    let menu = machine_menu(false, CpuModel::R4400, None);
    assert!(find(&menu, Action::Start).enabled && !find(&menu, Action::SerialConsole).enabled);
    assert!(!menu.iter().any(|i| i.label.starts_with("Running")));
}

#[test]
fn memory_is_offered_while_no_machine_runs() {
    let mut state = MemoryState {
        running: false,
        banks: [128, 128, 0, 0],
        summary: "256 MB".to_string(),
        started: None,
        presets: vec![64, 256],
    };
    let menu = memory_menu(&state);
    assert_eq!(
        &labels(&menu)[..7],
        &[
            "Config: 256 MB",
            "Applied at next Start",
            "",
            "Quick presets (auto-distributed):",
            "64 MB",
            "256 MB",
            "",
        ]
    );
    assert!(find(&menu, Action::SetRam(64)).enabled);
    assert_eq!(find(&menu, Action::SetBank(3, 16)).depth, 1);
    assert!(labels(&menu).contains(&"Bank 0: 128 MB"));
    assert_eq!(menu.iter().filter(|i| matches!(i.action, Action::SetBank(_, _))).count(), 24);

    state.running = true;
    state.started = Some(([64, 0, 0, 0], "64 MB".to_string()));
    let menu = memory_menu(&state);
    assert!(menu
        .iter()
        .filter(|i| matches!(i.action, Action::SetBank(_, _) | Action::SetRam(_)))
        .all(|i| !i.enabled));
    assert_eq!(menu[1].kind, ItemKind::Warn);
    assert_eq!(menu[1].label, "Running: 64 MB (Stop to apply edits)");
}

#[test]
fn the_view_menu_keeps_the_aspect_only_when_stretched() {
    let menu = view_menu(false, DisplayScaling::NearestInteger, true);
    assert!(find(&menu, Action::NearestInteger).selected);
    assert!(!find(&menu, Action::KeepAspect).enabled);
    assert_eq!(find(&menu, Action::ToggleFullscreen).label, "Fullscreen (F11)");
    let menu = view_menu(true, DisplayScaling::Stretch, true);
    assert!(find(&menu, Action::KeepAspect).enabled && find(&menu, Action::KeepAspect).selected);
    assert_eq!(find(&menu, Action::ToggleFullscreen).label, "Exit fullscreen (F11)");
}

#[test]
fn the_help_menu_reports_the_build() {
    let build = BuildFeatures {
        chd: true,
        camera: false,
        rex_jit: true,
        lightning: false,
        ultra64: true,
        appstore: false,
    };
    let authors = vec!["A".to_string(), "B".to_string()];
    let link = Link { label: "Source:".to_string(), name: "s".to_string(), url: "u".to_string() };
    let links = vec![link];
    let menu = help_menu(false, "1.2", &authors, &links, build, true);
    let text = labels(&menu);
    assert!(text.contains(&"Version 1.2"));
    assert!(text.contains(&"  chd:       on") && text.contains(&"  camera:    off"));
    assert!(text.contains(&"  rex-jit:   off (sandbox)"));
    assert!(menu.iter().any(|i| i.action == Action::Ultra64Help));
    assert!(!find(&menu, Action::TestCamera).enabled);
    let at = text.iter().position(|l| *l == "Authors").unwrap();
    assert_eq!(text[at + 1..at + 6], ["A", "B", "", "Source:", ""]);
    assert_eq!(menu[at + 4].action, Action::OpenLink(0));
    let shipped = BuildFeatures { appstore: true, ..build };
    let store = help_menu(true, "1.2", &authors, &links, shipped, false);
    assert!(!store.iter().any(|i| i.action == Action::Ultra64Help));
    assert_eq!(jit_state(true, false), "on");
    assert_eq!(jit_state(false, true), "off");
}

#[test]
fn entries_command_the_emulator() {
    assert_eq!(commands(Action::Reset, false), vec![Command::SendStop, Command::StartEmulator]);
    assert_eq!(commands(Action::Quit, true), vec![Command::FlushMachine, Command::CloseWindow]);
    assert_eq!(commands(Action::Quit, false), vec![Command::CloseWindow]);
    assert_eq!(commands(Action::Stop, true), vec![Command::RequestStop]);
    assert!(commands(Action::HelpInfo, true).is_empty());
}

#[test]
fn deleting_a_machine_activates_the_next() {
    let machines = names(&["a", "b", "c"]);
    let d = delete_current(&machines, &Some("a".to_string())).unwrap();
    assert_eq!(d.machines, names(&["b", "c"]));
    assert_eq!(d.next, Some("b".to_string()));
    assert_eq!(d.toast, "deleted 'a'");
    assert_eq!(d.removed, "a");
    assert!(delete_current(&machines, &None).is_none());
    assert_eq!(delete_current(&names(&["x"]), &Some("x".to_string())).unwrap().next, None);
}

#[test]
fn messages_say_what_was_done() {
    assert_eq!(cpu_toast(CpuModel::R5000), "MIPS R5000 \u{2014} applies at next Start");
    assert_eq!(ram_toast("72 MB", &[64, 8, 0, 0]), "RAM set to 72 MB ([64, 8, 0, 0])");
    assert_eq!(
        nvram_toast(&Ok("08:00:69:01:02:03".to_string())),
        "NVRAM reset \u{2014} new MAC 08:00:69:01:02:03"
    );
    assert_eq!(nvram_toast(&Err("denied".to_string())), "NVRAM reset failed: denied");
}

#[test]
fn discs_reach_a_running_drive() {
    let insert = ScsiAction::InsertDisc { id: 4, path: "d.iso".to_string() };
    let e = on_pick(&MenuPick::Change(insert.clone()), true);
    assert_eq!(e.change, Some(insert.clone()));
    let load = DriveCommand::LoadDisc { id: 4, path: "d.iso".to_string(), remount: true };
    assert_eq!(e.command, Some(load));
    assert_eq!(e.toast, None);
    let e = on_pick(&MenuPick::Change(insert), false);
    assert_eq!(e.command, None);
    assert!(e.toast.unwrap().starts_with("Disc saved"));

    let e = on_pick(&MenuPick::Change(ScsiAction::Eject { id: 4 }), true);
    assert_eq!(e.command, Some(DriveCommand::EjectCdrom { id: 4 }));
    let e = on_pick(&MenuPick::RemountInIrix { id: 4 }, true);
    assert_eq!(e.command, Some(DriveCommand::RemountCdrom { id: 4 }));
    assert!(e.toast.unwrap().starts_with("SCSI #4: remount sent"));
    let e = on_pick(&MenuPick::RemountInIrix { id: 4 }, false);
    assert_eq!((e.command, e.toast.as_deref()), (None, Some("Mount /CDROM: start the VM first")));
    assert_eq!(on_pick(&MenuPick::CreateBlank { id: 2 }, false).create, Some(2));
    let e = on_pick(&MenuPick::Change(ScsiAction::Detach { id: 1 }), true);
    assert_eq!((e.command, e.toast), (None, None));
    assert_eq!(on_pick(&MenuPick::Nothing, true).change, None);
}

#[test]
fn disks_with_possible_overlays_are_found() {
    let mut cfg = MachineConfig::default();
    cfg.scsi.clear();
    let disk = |path: &str| ScsiDeviceConfig { path: path.to_string(), ..Default::default() };
    cfg.scsi.insert(6, disk("six.chd"));
    cfg.scsi.insert(2, disk("two.raw"));
    cfg.scsi.insert(3, ScsiDeviceConfig { overlay: true, ..disk("/d/three.raw") });
    cfg.scsi.insert(4, ScsiDeviceConfig { cdrom: true, ..disk("four.chd") });
    cfg.scsi.insert(5, ScsiDeviceConfig { scratch: true, ..disk("five.chd") });
    cfg.scsi.insert(7, disk("  "));
    let found = cow_candidates(&cfg, false);
    let ids: Vec<(u8, bool)> = found.iter().map(|c| (c.id, c.chd)).collect();
    assert_eq!(ids, vec![(3, false), (6, true)]);
    assert_eq!(cow_label(&found[0], false), "SCSI 3: three.raw");
    assert_eq!(raw_overlay_path("/d/three.raw"), "/d/three.raw.overlay");
    assert_eq!(cow_menu(0, true), CowMenu::Hidden);
    assert_eq!(cow_menu(2, true), CowMenu::StopFirst);
    assert_eq!(cow_menu(2, false), CowMenu::Entries);
}

#[test]
fn the_state_of_the_machine() {
    assert_eq!(run_state(true, true, true), RunState::Halted);
    assert_eq!(run_state(true, false, true), RunState::Prom);
    assert_eq!(run_state(true, false, false), RunState::Running);
    assert_eq!(run_state(false, true, false), RunState::Stopped);
    assert_eq!(RunState::Running.label(), "IRIX running");
    assert!(shows_mips(true, false) && !shows_mips(true, true) && !shows_mips(false, false));
}

#[test]
fn the_network_indicator() {
    let pcap = Some((NetMode::Pcap, Some("eth0".to_string())));
    let nat = Some((NetMode::Nat, None));
    assert_eq!(
        net_badge(true, &pcap, NetState::Active),
        ("PCAP", "Bridged (PCAP) on eth0: guest is carrying IP traffic.".to_string())
    );
    let auto = Some((NetMode::Pcap, Some(String::new())));
    assert!(net_badge(true, &auto, NetState::Idle).1.starts_with("Bridged (PCAP) on auto: no guest"));
    assert_eq!(
        net_badge(true, &nat, NetState::Active),
        ("NAT", "Internal NAT network: carrying guest traffic.".to_string())
    );
    assert_eq!(net_badge(false, &nat, NetState::Off).0, "NET");
    assert_eq!(net_badge(true, &None, NetState::Off).0, "NET");
    assert!(offers_net_check(true, &nat) && !offers_net_check(true, &pcap));
    assert!(!offers_net_check(false, &nat));
    assert_eq!(NetState::Idle.color(), (0xd9, 0x4a, 0x3d));
}

#[test]
fn status_lines() {
    let indy = MachineProfile::IndyIp24;
    assert_eq!(
        machine_line(&None, indy, false, None, CpuModel::R4400, true),
        "Machine: (unsaved) \u{b7} SGI Indy (IP24) \u{b7} MIPS R4400 *"
    );
    let lab = Some("lab".to_string());
    assert_eq!(
        machine_line(&lab, indy, true, Some(CpuModel::R5000), CpuModel::R4400, false),
        "Machine: lab \u{b7} SGI Indy (IP24) \u{b7} MIPS R5000"
    );
    assert_eq!(
        pending_cpu_line(true, Some(CpuModel::R5000), CpuModel::R4400),
        Some("MIPS R4400 pending (Stop to apply)".to_string())
    );
    assert_eq!(pending_cpu_line(false, Some(CpuModel::R5000), CpuModel::R4400), None);
    assert_eq!(dirty_line(12), "Dirty COW: 12");
    assert!(shows_toast(4) && !shows_toast(5));
}

#[test]
fn editor_tabs_follow_the_build() {
    assert!(quick_tabs(false, false, false).is_empty());
    assert_eq!(
        quick_tabs(true, false, false),
        vec![QuickTab::Network, QuickTab::VideoIn, QuickTab::Debug, QuickTab::Ci]
    );
    assert_eq!(quick_tabs(true, true, true), vec![QuickTab::Network, QuickTab::VideoIn]);
    assert_eq!(editor_label(true), "Hide config editor");
    assert_eq!(editor_heading(&None), "Configuration \u{2014} default");
}

#[test]
fn slots_are_named_by_what_is_attached() {
    let disk = ScsiDeviceConfig { path: "/d/a.raw".to_string(), ..Default::default() };
    let cow = ScsiDeviceConfig { overlay: true, ..disk.clone() };
    let cd = ScsiDeviceConfig { path: "/d/c.iso".to_string(), cdrom: true, ..Default::default() };
    let empty = ScsiDeviceConfig { cdrom: true, ..Default::default() };
    let net = ScsiDeviceConfig { kind_field: ScsiKind::Daynaport, ..Default::default() };
    let far = ScsiDeviceConfig { path: "C:\\d\\a.raw".into(), ..Default::default() };
    assert_eq!(render_label(1, Some(&far), true, 0, true), "SCSI #1: HDD a.raw");
    assert_eq!(render_label(1, Some(&far), true, 0, false), "SCSI #1: HDD C:\\d\\a.raw");
    assert_eq!(render_label(3, None, false, 0, false), "SCSI #3: (empty)");
    assert_eq!(render_label(3, Some(&net), false, 0, false), "SCSI #3: DaynaPort (Ethernet)");
    assert_eq!(render_label(4, Some(&empty), false, 0, false), "SCSI #4: CD (no media)");
    assert_eq!(render_label(4, Some(&cd), false, 0, false), "SCSI #4: CD \u{26a0} /d/c.iso (missing)");
    assert_eq!(render_label(4, Some(&cd), true, 0, false), "SCSI #4: CD c.iso");
    assert_eq!(render_label(1, Some(&disk), true, 0, false), "SCSI #1: HDD a.raw");
    assert_eq!(render_label(1, Some(&cow), true, 3 << 20, false), "SCSI #1: HDD a.raw (3 MB) [COW]");
    for size in [1u64, 524_288, 524_289, 1_572_864, 2_621_440, 5_000_000, 240_000_172_032] {
        let want = format!("SCSI #1: HDD a.raw ({:.0} MB)", size as f64 / (1024.0 * 1024.0));
        assert_eq!(render_label(1, Some(&disk), true, size, false), want);
    }
}

#[test]
fn entries_change_one_slot() {
    let mut cfg = MachineConfig::default();
    let path = "x.raw".to_string();
    assert_eq!(
        apply(&mut cfg, ScsiAction::AttachHdd { id: 2, path }),
        Some("scsi2: HDD attached".to_string())
    );
    assert_eq!(cfg.scsi[&2].path, "x.raw");
    apply(&mut cfg, ScsiAction::ToggleOverlay { id: 2 });
    assert!(cfg.scsi[&2].overlay);
    apply(&mut cfg, ScsiAction::ToggleOverlay { id: 2 });
    assert!(!cfg.scsi[&2].overlay);
    apply(&mut cfg, ScsiAction::Detach { id: 2 });
    assert!(!cfg.scsi.contains_key(&2));
    apply(&mut cfg, ScsiAction::AttachEmptyCdrom { id: 5 });
    assert!(cfg.scsi[&5].is_cdrom() && cfg.scsi[&5].path.is_empty());
    apply(&mut cfg, ScsiAction::InsertDisc { id: 5, path: "d.iso".to_string() });
    assert_eq!(cfg.scsi[&5].path, "d.iso");
    apply(&mut cfg, ScsiAction::Eject { id: 5 });
    assert_eq!(cfg.scsi[&5].path, "");
    assert_eq!(
        apply(&mut cfg, ScsiAction::Eject { id: 6 }),
        Some("scsi6: ejected".to_string())
    );
    assert!(!cfg.scsi.contains_key(&6));
    apply(&mut cfg, ScsiAction::AttachCdromWithDisc { id: 6, path: "e.iso".to_string() });
    assert!(cfg.scsi[&6].is_cdrom() && cfg.scsi[&6].path == "e.iso");
    assert_eq!(cfg.scsi[&1].path, "scsi1.raw");
}

#[test]
fn dialogs_offer_images() {
    let d = pick_disk("Choose", "/d/a.raw");
    assert_eq!((d.title.as_str(), d.start.as_str()), ("Choose", "/d/a.raw"));
    assert_eq!(d.filters[0].name, "Disk images");
    assert_eq!(d.filters[0].extensions, names(&["raw", "img", "chd"]));
    assert_eq!(d.filters[1].extensions, names(&["*"]));
    let d = pick_iso("Choose", "");
    assert_eq!(d.filters[0].name, "ISO images");
    assert_eq!(d.filters[0].extensions, names(&["iso", "chd"]));
}

#[test]
fn hardware_entries_change_the_configuration() {
    let mut cfg = MachineConfig::default();
    let before = cfg.banks;
    let done = edit(&mut cfg, Action::SetCpu(CpuModel::R5000), [0; 4], "");
    assert!(done.changed);
    assert_eq!(done.toast.as_deref(), Some("MIPS R5000 \u{2014} applies at next Start"));
    assert_eq!((cfg.machine.cpu, cfg.banks), (CpuModel::R5000, before));
    let done = edit(&mut cfg, Action::SetRam(96), [64, 32, 0, 0], "96 MB");
    assert_eq!(done.toast.as_deref(), Some("RAM set to 96 MB ([64, 32, 0, 0])"));
    assert_eq!(cfg.banks, [64, 32, 0, 0]);
    let done = edit(&mut cfg, Action::SetBank(2, 128), [0; 4], "");
    assert!(done.changed && done.toast.is_none());
    assert_eq!(cfg.banks, [64, 32, 128, 0]);
    assert!(!edit(&mut cfg, Action::SetBank(4, 8), [0; 4], "").changed);
    assert!(!edit(&mut cfg, Action::Quit, [0; 4], "").changed);
    assert_eq!(cfg.banks, [64, 32, 128, 0]);
}

#[test]
fn scaling_is_saved_when_it_changes() {
    let (near, wide) = (DisplayScaling::NearestInteger, DisplayScaling::Stretch);
    assert_eq!(choose_scaling(Action::Stretch, near, true), (wide, true, true));
    assert_eq!(choose_scaling(Action::Stretch, wide, true), (wide, true, false));
    assert_eq!(choose_scaling(Action::KeepAspect, wide, true), (wide, false, true));
    assert_eq!(choose_scaling(Action::NearestInteger, wide, false), (near, false, true));
    assert_eq!(choose_scaling(Action::Quit, wide, false), (wide, false, false));
}

#[test]
fn controls_follow_the_machine() {
    let stopped = machine_controls(false);
    assert_eq!(labels(&stopped), vec!["\u{25b6} Start", "\u{1f4be} Save state", "Restore state"]);
    assert_eq!(stopped.iter().map(|i| i.enabled).collect::<Vec<_>>(), vec![true, false, false]);
    let running = machine_controls(true);
    assert_eq!(running[0].action, Action::Stop);
    assert!(running.iter().all(|i| i.enabled));
    assert!(capture_controls(false, true, "Ctrl").is_empty());
    assert_eq!(
        labels(&capture_controls(true, true, "Right Ctrl")),
        vec!["Mouse/Keyboard Captured", "To disable: Right Ctrl", "Send F11 to IRIX: Ctrl+Alt+F11"]
    );
    assert_eq!(find(&capture_controls(true, false, ""), Action::Capture).label, "Capture mouse/keyboard");
}

#[test]
fn entries_explain_themselves() {
    let of = |a, on, help| hover_text(a, on, help, "/m/nvram.bin");
    assert_eq!(
        of(Action::ResetNvram, true, false).as_deref(),
        Some("Restore this machine's NVRAM to defaults and assign a fresh Ethernet MAC.\n/m/nvram.bin")
    );
    assert_eq!(of(Action::SetRam(64), false, false).as_deref(), Some("Stop the VM to change RAM"));
    assert_eq!(of(Action::SetRam(64), true, false), None);
    assert_eq!(of(Action::SerialConsole, false, true).as_deref(), Some("Start a machine first"));
    assert_eq!(of(Action::SerialConsole, false, false), None);
    assert_ne!(of(Action::SerialConsole, true, true), of(Action::SerialConsole, true, false));
    assert_eq!(of(Action::Quit, true, false), None);
}
