use iris::config::CpuModel;
use iris::config::EnvChange;
use iris::config::GraphicsBoard;
use iris::config::ImpactSlot;
use iris::config::MachineProfile;
use iris::config::NatSubnet;
use iris::config::NetMode;
use iris::config::NewportResolution;
use iris::config::Real;
use iris::config::ScsiDeviceConfig;
use iris::config::ScsiKind;
use iris::machine_config::ci_socket_is_tcp;
use iris::machine_config::ci_socket_tcp_addr;
use iris::machine_config::default_ci_socket;
use iris::machine_config::MachineConfig;
use iris::net_addr::parse_ipv4;
use iris::net_addr::parse_mac;
use iris::net_addr::parse_nat_subnet;
use iris::net_addr::Ipv4Addr;

fn daynaport() -> ScsiDeviceConfig {
    ScsiDeviceConfig { kind_field: ScsiKind::Daynaport, ..Default::default() }
}

fn with_device(id: u8, dev: ScsiDeviceConfig) -> MachineConfig {
    let mut cfg = MachineConfig::default();
    cfg.scsi.clear();
    cfg.scsi.insert(id, dev);
    cfg
}

#[test]
fn scsi_kind_daynaport_parses_and_round_trips() {
    let cfg = with_device(
        3,
        ScsiDeviceConfig {
            mac: Some("00:80:19:aa:bb:cc".into()),
            subnet: Some("192.168.7.0/24".into()),
            ..daynaport()
        },
    );
    let dev = &cfg.scsi[&3];
    assert!(dev.is_daynaport());
    assert!(!dev.is_cdrom());
    cfg.validate().expect("validate");

    let params = dev.daynaport_params(3).expect("params");
    assert_eq!(params.mac, [0x00, 0x80, 0x19, 0xaa, 0xbb, 0xcc]);
    assert_eq!(params.subnet.gateway_ip, Ipv4Addr::new(192, 168, 7, 1));
    assert_eq!(params.subnet.client_ip, Ipv4Addr::new(192, 168, 7, 2));
}

#[test]
fn cdrom_bool_still_selects_a_cdrom() {
    let mut cfg = MachineConfig::default();
    cfg.scsi.insert(
        4,
        ScsiDeviceConfig { path: "cd.iso".into(), cdrom: true, ..Default::default() },
    );
    cfg.scsi.insert(1, ScsiDeviceConfig { path: "disk.raw".into(), ..Default::default() });
    assert!(cfg.scsi[&4].is_cdrom());
    assert_eq!(cfg.scsi[&1].kind(), ScsiKind::Disk);
}

#[test]
fn daynaport_defaults_to_its_own_subnet_and_a_derived_mac() {
    let cfg = with_device(5, daynaport());
    cfg.validate().expect("validate");
    let p = cfg.scsi[&5].daynaport_params(5).expect("params");
    assert_eq!(p.mac, [0x00, 0x80, 0x19, 0x44, 0x50, 5]);
    assert_ne!(p.mac, [0x00, 0x80, 0x19, 0x00, 0x00, 5]);
    assert_eq!(p.subnet.gateway_ip, Ipv4Addr::new(192, 168, 10, 1));
    assert_ne!(p.subnet.gateway_ip, NatSubnet::default().gateway_ip);
}

#[test]
fn daynaport_rejects_a_subnet_that_collides_with_ec0() {
    let mut cfg = with_device(3, daynaport());
    cfg.nat_subnet = Some("192.168.10.0/24".into());
    let err = cfg.validate().expect_err("subnet collision must be rejected");
    assert!(err.contains("collides"), "{err}");
}

#[test]
fn daynaport_rejects_disk_only_options() {
    let cfg = with_device(3, ScsiDeviceConfig { overlay: true, ..daynaport() });
    assert!(cfg.validate().is_err());
}

#[test]
fn parse_mac_accepts_both_separators_and_rejects_junk() {
    assert_eq!(parse_mac("00:80:19:12:34:56").unwrap(), [0, 0x80, 0x19, 0x12, 0x34, 0x56]);
    assert_eq!(parse_mac("00-80-19-12-34-56").unwrap(), [0, 0x80, 0x19, 0x12, 0x34, 0x56]);
    assert!(parse_mac("00:80:19:12:34").is_err());
    assert!(parse_mac("zz:80:19:12:34:56").is_err());
    assert!(parse_mac("01:80:19:12:34:56").is_err(), "multicast bit must be rejected");
}

#[test]
fn indy_ip24_profile_validates_and_is_guinness() {
    let mut cfg = MachineConfig::default();
    cfg.machine.profile = MachineProfile::IndyIp24;
    cfg.validate().expect("indy_ip24 should validate");
    assert!(cfg.machine.profile.guinness());
}

#[test]
fn indigo2_profile_validates_and_is_fullhouse() {
    let mut cfg = MachineConfig::default();
    cfg.machine.profile = MachineProfile::Indigo2Ip22;
    cfg.validate().expect("indigo2_ip22 should validate on default build");
    assert!(cfg.machine.profile.supported());
    assert!(!cfg.machine.profile.guinness());
}

#[test]
fn graphics_options_are_checked() {
    let mut cfg = MachineConfig::default();
    cfg.graphics.heads = 3;
    assert_eq!(cfg.validate().unwrap_err(), "graphics.heads 3 is invalid (valid: 1, 2)");
    cfg.graphics.heads = 2;
    assert!(cfg.validate().is_ok());
    cfg.graphics.board = GraphicsBoard::Xz;
    assert!(cfg.validate().unwrap_err().contains("dual-head"));
    cfg.graphics.heads = 1;
    assert!(cfg.validate().is_ok());
    cfg.graphics.resolution = NewportResolution::Preset { width: 1280, height: 1024 };
    assert!(cfg.validate().unwrap_err().contains("presets require Newport"));
    cfg.machine.profile = MachineProfile::Indigo2Ip22;
    assert!(cfg.validate().unwrap_err().contains("only valid on Indy"));
}

#[test]
fn impact_slots_need_an_indigo2() {
    let mut cfg = MachineConfig::default();
    cfg.impact.gfx = ImpactSlot::Solid;
    assert!(cfg.validate().unwrap_err().contains("preview-only on Indigo2"));
    cfg.machine.profile = MachineProfile::Indigo2Ip22;
    assert_eq!(cfg.validate().is_ok(), cfg.impact.validate().is_ok());
    assert!(cfg.impact.any_enabled());
}

#[test]
fn controllers_depend_on_the_profile() {
    let mut cfg = with_device(2, ScsiDeviceConfig { controller: 1, ..Default::default() });
    assert!(cfg.validate().unwrap_err().starts_with("scsi.2: controller 1 is only valid on Indigo2"));
    cfg.machine.profile = MachineProfile::Indigo2Ip22;
    assert!(cfg.validate().is_ok());
    cfg.scsi.get_mut(&2).unwrap().controller = 2;
    assert_eq!(cfg.validate().unwrap_err(), "scsi.2: controller 2 is invalid (valid: 0, 1)");
}

#[test]
fn every_other_option_is_checked() {
    let bad = |change: fn(&mut MachineConfig)| {
        let mut cfg = MachineConfig::default();
        change(&mut cfg);
        cfg.validate().unwrap_err()
    };
    assert_eq!(bad(|c| c.scale = 5), "scale 5 is invalid (valid: 1, 2, 3, 4)");
    assert_eq!(
        bad(|c| c.banks[2] = 7),
        "bank2 size 7 MB is invalid (valid: [0, 8, 16, 32, 64, 128])"
    );
    assert!(bad(|c| c.nat_subnet = Some("10.0.0.0".into())).starts_with("nat_subnet \"10.0.0.0\": "));
    assert!(bad(|c| c.network.mac = Some("01:00:00:00:00:00".into())).starts_with("network.mac: "));
    assert!(bad(|c| c.jitv2.threads = 0).starts_with("jitv2.threads must be at least 1"));
    assert!(bad(|c| {
        c.scsi.insert(8, ScsiDeviceConfig::default());
    })
    .starts_with("SCSI ID 8 is out of range"));
    assert!(bad(|c| {
        c.clock.fixed_mhz = Some(Real { bits: (-1.5f64).to_bits(), text: "-1.5".into() });
    })
    .starts_with("clock.fixed_mhz -1.5 is invalid"));
    assert!(bad(|c| {
        c.clock.fixed_mhz = Some(Real { bits: f64::INFINITY.to_bits(), text: "inf".into() });
    })
    .contains("invalid"));
    let mut good = MachineConfig::default();
    good.clock.fixed_mhz = Some(Real { bits: 150.0f64.to_bits(), text: "150".into() });
    assert!(good.validate().is_ok());
}

#[test]
fn the_network_follows_the_configuration() {
    let mut cfg = MachineConfig::default();
    let net = cfg.network();
    assert_eq!(net.mode, NetMode::Nat);
    assert!(net.nat_subnet.is_none());
    assert_eq!(net.mac, iris::config::DEFAULT_MAC);
    cfg.nat_subnet = Some("10.1.2.0/24".into());
    cfg.network.mac = Some("08:00:69:01:02:03".into());
    let net = cfg.network();
    assert_eq!(net.nat_subnet.unwrap().gateway_ip, Ipv4Addr::new(10, 1, 2, 1));
    assert_eq!(net.mac, [8, 0, 0x69, 1, 2, 3]);
}

#[test]
fn the_active_disc_is_the_path_or_the_first_disc() {
    let dev = ScsiDeviceConfig { path: "a.iso".into(), cdrom: true, ..Default::default() };
    assert_eq!(MachineConfig::active_disc(&dev), "a.iso");
    let dev = ScsiDeviceConfig {
        cdrom: true,
        discs: vec!["b.iso".into(), "c.iso".into()],
        ..Default::default()
    };
    assert_eq!(MachineConfig::active_disc(&dev), "b.iso");
}

#[test]
fn control_sockets_are_paths_or_ports() {
    assert!(ci_socket_is_tcp("127.0.0.1:8888"));
    assert!(!ci_socket_is_tcp("/tmp/iris.sock"));
    assert_eq!(default_ci_socket(false), "/tmp/iris.sock");
    assert!(ci_socket_is_tcp(&default_ci_socket(true)));
    assert!(ci_socket_tcp_addr(&default_ci_socket(true)).contains(':'));
}

#[test]
fn subnets_give_gateway_client_and_mask() {
    assert_eq!(
        parse_nat_subnet("192.168.5.0/24").unwrap(),
        (
            Ipv4Addr::new(192, 168, 5, 1),
            Ipv4Addr::new(192, 168, 5, 2),
            Ipv4Addr::new(255, 255, 255, 0)
        )
    );
    assert_eq!(
        parse_nat_subnet("10.9.8.7/16").unwrap_err(),
        "address 10.9.8.7 is not the network address for /16 (did you mean 10.9.0.0.0/16?)"
    );
    assert_eq!(
        parse_nat_subnet("10.0.0.0/31").unwrap_err(),
        "prefix /31 is too small (minimum /30)"
    );
    for bad in ["192.168.5.0", "192.168.5/24", "192.168.5.0/33", "192.168.5.0/x", "/24"] {
        assert!(parse_nat_subnet(bad).is_err(), "{bad}");
    }
}

#[test]
fn addresses_have_four_octets() {
    let of = |s: &str| parse_ipv4(&s.chars().collect::<Vec<char>>());
    assert_eq!(of("10.0.0.1"), Some(Ipv4Addr::new(10, 0, 0, 1)));
    assert_eq!(of("256.0.0.1"), None);
    assert_eq!(of("1.2.3"), None);
    assert_eq!(of("01.2.3.4"), None);
    assert_eq!(Ipv4Addr::new(192, 168, 0, 1).to_text(), "192.168.0.1");
}

#[test]
fn names_of_models_and_kinds() {
    assert_eq!(CpuModel::R4400.label(), "MIPS R4400");
    assert_eq!(CpuModel::default(), CpuModel::R4400);
    assert_eq!(MachineProfile::default().label(), "SGI Indy (IP24)");
    assert_eq!(ScsiKind::Daynaport.label(), "DaynaPort SCSI/Link");
}

#[test]
fn debug_options_become_variables() {
    let mut cfg = MachineConfig::default();
    let (idle, capture, log) = cfg.debug.env_changes();
    assert!(matches!(idle, EnvChange::Remove));
    assert!(matches!(capture, EnvChange::Remove));
    assert!(matches!(log, EnvChange::Remove));
    cfg.debug.no_idle = true;
    cfg.debug.debug_log = "net".into();
    let (idle, capture, log) = cfg.debug.env_changes();
    assert!(matches!(idle, EnvChange::Assign(v) if v == "1"));
    assert!(matches!(capture, EnvChange::Remove));
    assert!(matches!(log, EnvChange::Assign(v) if v == "net"));
}

#[test]
fn windows_have_the_size_of_the_preset() {
    let mut cfg = MachineConfig::default();
    assert_eq!(cfg.graphics.host_display_size(), (1280, 1024));
    cfg.graphics.resolution = NewportResolution::Preset { width: 1024, height: 768 };
    assert_eq!(cfg.graphics.host_display_size(), (1024, 768));
}

#[test]
fn hosts_differ_in_the_control_socket() {
    assert_eq!(MachineConfig::for_host(true).ci_socket, "127.0.0.1:19851");
    assert_eq!(MachineConfig::for_host(false).ci_socket, "/tmp/iris.sock");
    let windows = std::path::MAIN_SEPARATOR == '\\';
    assert_eq!(MachineConfig::default().ci_socket, MachineConfig::for_host(windows).ci_socket);
}

#[test]
fn profiles_and_processors_are_listed() {
    assert_eq!(MachineProfile::ALL, [MachineProfile::IndyIp24, MachineProfile::Indigo2Ip22]);
    assert_eq!(CpuModel::ALL, [CpuModel::R4400, CpuModel::R5000]);
}
