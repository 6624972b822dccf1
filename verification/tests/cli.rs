use iris::cli::missing_config_is_fatal;
use iris::cli::parse_scsi_id;
use iris::cli::resolve_config;
use iris::cli::wants_backslash_hint;
use iris::cli::Cli;
use iris::config::CpuModel;
use iris::config::MachineProfile;
use iris::config::NetMode;
use iris::machine_config::MachineConfig;

fn no_options() -> Cli {
    Cli {
        config: "iris.toml".to_string(),
        prom: None,
        ip22: false,
        nvram: None,
        nveeprom: None,
        bank0: None,
        bank1: None,
        bank2: None,
        bank3: None,
        jitv2_threads: None,
        scsi1: None,
        scsi2: None,
        scsi3: None,
        cdrom4: None,
        cdrom5: None,
        cdrom6: None,
        scsi7: None,
        cdrom4_extra: vec![],
        cdrom5_extra: vec![],
        cdrom6_extra: vec![],
        scale2x: false,
        headless: false,
        no_audio: false,
        nfs_dir: None,
        nat_subnet: None,
        net_mode: None,
        pcap_interface: None,
        list_net_interfaces: false,
        no_scsi_deferred_int: false,
        cpu: None,
        gdb_port: None,
        test_device: false,
        test_device_dump: None,
        cheritest_dump_hook: false,
        tftp_dir: None,
        load_elf: None,
        ci: false,
        ci_socket: None,
        ci_display: false,
        serial_log: None,
        clock_fixed_mhz: None,
    }
}

#[test]
fn no_options_change_nothing() {
    let cfg = no_options().apply(MachineConfig::default());
    let base = MachineConfig::default();
    assert_eq!(cfg.prom, base.prom);
    assert_eq!(cfg.banks, base.banks);
    assert_eq!(cfg.scale, base.scale);
    assert_eq!(cfg.scsi.len(), base.scsi.len());
    assert_eq!(cfg.machine, base.machine);
}

#[test]
fn options_override_the_file() {
    let cli = Cli {
        prom: Some("p.bin".to_string()),
        ip22: true,
        bank1: Some(64),
        scale2x: true,
        cpu: Some(CpuModel::R5000),
        gdb_port: Some(1234),
        ..no_options()
    };
    let cfg = cli.apply(MachineConfig::default());
    assert_eq!(cfg.prom, "p.bin");
    assert_eq!(cfg.machine.profile, MachineProfile::Indigo2Ip22);
    assert_eq!(cfg.machine.cpu, CpuModel::R5000);
    assert_eq!(cfg.banks, [128, 64, 0, 0]);
    assert_eq!(cfg.scale, 2);
    assert_eq!(cfg.gdb_port, Some(1234));
}

#[test]
fn images_land_on_their_ids() {
    let cli = Cli {
        scsi2: Some("two.img".to_string()),
        cdrom5: Some("five.iso".to_string()),
        cdrom5_extra: vec!["six.iso".to_string()],
        ..no_options()
    };
    let cfg = cli.apply(MachineConfig::default());
    assert_eq!(cfg.scsi[&2].path, "two.img");
    assert!(!cfg.scsi[&2].is_cdrom());
    assert_eq!(cfg.scsi[&5].path, "five.iso");
    assert!(cfg.scsi[&5].is_cdrom());
    assert_eq!(cfg.scsi[&1].path, "scsi1.raw");
}

#[test]
fn an_interface_implies_bridging() {
    let cli = Cli { pcap_interface: Some("1".to_string()), ..no_options() };
    assert_eq!(cli.apply(MachineConfig::default()).network.mode, NetMode::Pcap);
    let cli = Cli { net_mode: Some(NetMode::Pcap), ..no_options() };
    assert_eq!(cli.apply(MachineConfig::default()).network.mode, NetMode::Pcap);
}

#[test]
fn the_merged_configuration_is_checked() {
    let (cfg, scale) = resolve_config(&no_options(), MachineConfig::default()).unwrap();
    assert_eq!((cfg.scale, scale), (1, 1));
    let cli = Cli { bank0: Some(7), ..no_options() };
    assert!(resolve_config(&cli, MachineConfig::default()).is_err());
}

#[test]
fn only_a_named_file_has_to_exist() {
    assert!(!missing_config_is_fatal("iris.toml", false));
    assert!(missing_config_is_fatal("other.toml", false));
    assert!(!missing_config_is_fatal("other.toml", true));
}

#[test]
fn ids_are_numbers() {
    assert_eq!(parse_scsi_id("4"), Some(4));
    assert_eq!(parse_scsi_id("x"), None);
    assert_eq!(parse_scsi_id("256"), None);
}

#[test]
fn windows_paths_get_a_hint() {
    assert!(wants_backslash_hint("path = \"C:\\disk\"", "invalid escape sequence"));
    assert!(!wants_backslash_hint("path = 5", "invalid type"));
}

#[test]
fn control_runs_without_a_window_unless_asked() {
    let apply = |cli: Cli| cli.apply(MachineConfig::default()).headless;
    assert!(!apply(no_options()));
    assert!(apply(Cli { headless: true, ..no_options() }));
    assert!(apply(Cli { ci: true, ..no_options() }));
    assert!(!apply(Cli { ci: true, ci_display: true, ..no_options() }));
    assert!(apply(Cli { ci: true, ci_display: true, headless: true, ..no_options() }));
    let base = MachineConfig { ci: true, ..MachineConfig::default() };
    assert!(no_options().apply(base).headless);
    let base = MachineConfig { ci: true, ci_display: true, ..MachineConfig::default() };
    assert!(!no_options().apply(base).headless);
}

#[test]
fn no_options_keep_what_the_file_says() {
    let base = || MachineConfig {
        ci: true,
        ci_socket: "s".to_string(),
        scale: 2,
        no_audio: true,
        gdb_port: Some(9),
        ..MachineConfig::default()
    };
    let cfg = no_options().apply(base());
    assert!(cfg.ci && !cfg.ci_display && cfg.headless && cfg.no_audio);
    assert_eq!((cfg.ci_socket.as_str(), cfg.scale, cfg.gdb_port), ("s", 2, Some(9)));
    let cfg = no_options().apply(MachineConfig { ci: false, ..base() });
    assert!(!cfg.headless);
}
