use iris::net_pcap::classify_open_error;
use iris::net_pcap::format_interfaces;
use iris::net_pcap::interface_menu;
use iris::net_pcap::is_pcap_mode;
use iris::net_pcap::mac_str;
use iris::net_pcap::menu_choice;
use iris::net_pcap::nfs_ip_candidates;
use iris::net_pcap::open_status;
use iris::net_pcap::prompt_for_interface;
use iris::net_pcap::resolve_interface;
use iris::net_pcap::select_interface;
use iris::net_pcap::unlisted_warning;
use iris::net_pcap::MenuChoice;
use iris::net_pcap::NetInterface;
use iris::net_pcap::PcapEngine;
use iris::net_pcap::PcapStatus;
use iris::net_pcap::ReopenAction;
use iris::net_pcap::TxRoute;
use iris::config::NetMode;
use iris::config::NfsConfig;
use iris::config::NfsVersion;
use iris::net_addr::Ipv4Addr;

fn iface(name: &str, up: bool, running: bool, loopback: bool, has_addr: bool) -> NetInterface {
    NetInterface {
        name: name.to_string(),
        description: None,
        addresses: if has_addr { vec!["192.168.0.2".to_string()] } else { vec![] },
        up, running, loopback,
    }
}

fn sample() -> Vec<NetInterface> {
    vec![
        iface("eth0", true, true, false, true),
        iface(r"\Device\NPF_{ABC-123}", true, true, false, true),
        iface("lo", true, true, true, true),
    ]
}

#[test]
fn selects_by_index() {
    let ifaces = sample();
    assert_eq!(resolve_interface(Some("1"), &ifaces).unwrap(), "eth0");
    // Index 2 resolves the awkward Windows-style name without the user typing it.
    assert_eq!(resolve_interface(Some("2"), &ifaces).unwrap(), r"\Device\NPF_{ABC-123}");
    // Whitespace tolerated.
    assert_eq!(resolve_interface(Some("  1 "), &ifaces).unwrap(), "eth0");
}

#[test]
fn index_out_of_range_errors() {
    let ifaces = sample();
    assert!(resolve_interface(Some("0"), &ifaces).is_err());
    assert!(resolve_interface(Some("4"), &ifaces).is_err());
}

#[test]
fn selects_by_exact_name() {
    let ifaces = sample();
    assert_eq!(resolve_interface(Some("eth0"), &ifaces).unwrap(), "eth0");
    assert_eq!(
        resolve_interface(Some(r"\Device\NPF_{ABC-123}"), &ifaces).unwrap(),
        r"\Device\NPF_{ABC-123}"
    );
}

#[test]
fn unknown_name_passes_through_verbatim() {
    let ifaces = sample();
    assert_eq!(resolve_interface(Some("tap5"), &ifaces).unwrap(), "tap5");
}

#[test]
fn auto_picks_first_up_running_nonloopback_with_addr() {
    let ifaces = sample();
    assert_eq!(resolve_interface(None, &ifaces).unwrap(), "eth0");
    assert_eq!(resolve_interface(Some(""), &ifaces).unwrap(), "eth0");
}

#[test]
fn auto_pick_errors_when_only_loopback() {
    let ifaces = vec![iface("lo", true, true, true, true)];
    assert!(resolve_interface(None, &ifaces).is_err());
}

#[test]
fn nfs_candidates_24_default_starts_at_213() {
    let c = nfs_ip_candidates(Ipv4Addr::new(192, 168, 1, 0), 24, &[]);
    assert_eq!(c[0], Ipv4Addr::new(192, 168, 1, 213), "default for /24 is .213");
    assert_eq!(c[1], Ipv4Addr::new(192, 168, 1, 214), "scans upward, contiguous");
    assert!(c.len() <= 16, "returns at most a few candidates");
    assert!(c.iter().all(|a| *a <= Ipv4Addr::new(192, 168, 1, 242)),
            "never above the 95% cap (.242 on a /24)");
}

#[test]
fn nfs_candidates_skip_reserved() {
    let res = [Ipv4Addr::new(192, 168, 1, 213), Ipv4Addr::new(192, 168, 1, 214)];
    let c = nfs_ip_candidates(Ipv4Addr::new(192, 168, 1, 0), 24, &res);
    assert_eq!(c[0], Ipv4Addr::new(192, 168, 1, 215), "first free after reserved");
}

#[test]
fn nfs_candidates_respect_95pct_cap() {
    // Reserve the whole band below .242 → only .242 remains, and .243+ are
    // never offered (the 95% hard cap).
    let res: Vec<_> = (213u8..=241).map(|h| Ipv4Addr::new(192, 168, 1, h)).collect();
    let c = nfs_ip_candidates(Ipv4Addr::new(192, 168, 1, 0), 24, &res);
    assert_eq!(c, vec![Ipv4Addr::new(192, 168, 1, 242)]);
}

#[test]
fn nfs_candidates_normalize_and_edge_prefixes() {
    // Host bits in `network` are ignored (normalized to the network address).
    let c = nfs_ip_candidates(Ipv4Addr::new(10, 0, 0, 77), 24, &[]);
    assert_eq!(c[0], Ipv4Addr::new(10, 0, 0, 213));
    // /31, /32, /0 have no usable host band.
    assert!(nfs_ip_candidates(Ipv4Addr::new(10, 0, 0, 0), 31, &[]).is_empty());
    assert!(nfs_ip_candidates(Ipv4Addr::new(10, 0, 0, 0), 32, &[]).is_empty());
    assert!(nfs_ip_candidates(Ipv4Addr::new(10, 0, 0, 0), 0, &[]).is_empty());
}

#[test]
fn classify_open_error_detects_permission() {
    // macOS BPF and Linux raw-socket permission messages map to the prompt.
    for m in [
        "activate device 'en0': (cannot open BPF device) /dev/bpf0: Permission denied",
        "libpcap error: socket: Operation not permitted",
        "You don't have permission to capture on that device (socket: Operation not permitted)",
        "open device 'eth0': EACCES",
    ] {
        assert_eq!(classify_open_error(m), PcapStatus::PermissionDenied, "{m}");
    }
    // Non-permission failures stay a generic device error (no elevation UI).
    for m in [
        "open device 'wlan9': No such device exists",
        "activate device 'en0': BIOCSETIF: Device not configured",
    ] {
        assert_eq!(classify_open_error(m), PcapStatus::DeviceError, "{m}");
    }
}

fn named(name: &str, description: Option<&str>, addresses: Vec<&str>, up: bool) -> NetInterface {
    NetInterface {
        name: name.to_string(),
        description: description.map(|d| d.to_string()),
        addresses: addresses.iter().map(|a| a.to_string()).collect(),
        up,
        running: false,
        loopback: false,
    }
}

#[test]
fn auto_pick_falls_back_to_any_interface_that_is_up() {
    let ifaces = vec![
        iface("lo", true, true, true, true),
        iface("down0", false, true, false, true),
        iface("tap0", true, false, false, false),
    ];
    assert_eq!(resolve_interface(None, &ifaces).unwrap(), "tap0");
}

#[test]
fn out_of_range_index_names_the_range() {
    let e = resolve_interface(Some("4"), &sample()).unwrap_err();
    assert_eq!(
        e,
        "pcap_interface index 4 is out of range (1..=3); run `iris --list-net-interfaces`"
    );
}

#[test]
fn a_failed_listing_is_the_error() {
    let list: Result<Vec<NetInterface>, String> = Err("no driver".to_string());
    assert_eq!(select_interface(&Some("1".to_string()), &list).unwrap_err(), "no driver");
    let list = Ok(sample());
    assert_eq!(select_interface(&None, &list).unwrap(), "eth0");
    assert_eq!(select_interface(&Some(" 2 ".to_string()), &list).unwrap(), r"\Device\NPF_{ABC-123}");
}

#[test]
fn only_unlisted_names_are_warned_of() {
    let ifaces = sample();
    assert!(unlisted_warning("eth0", &ifaces).is_none());
    assert!(unlisted_warning("7", &ifaces).is_none());
    assert!(unlisted_warning("  ", &ifaces).is_none());
    let w = unlisted_warning(" tap5 ", &ifaces).unwrap();
    assert!(w.starts_with("iris: pcap_interface 'tap5' not found in the interface list;"));
}

#[test]
fn listings_number_and_tag_interfaces() {
    let list = Ok(vec![
        iface("eth0", true, true, false, true),
        named("wlan0", Some("Wireless"), vec![], false),
    ]);
    let text = format_interfaces(&list);
    assert!(text.starts_with("Available network interfaces for PCAP bridging:\n"));
    assert!(text.ends_with(
        "   1. eth0 [up,running]\n        addr: 192.168.0.2\n   2. wlan0\n        Wireless\n"
    ));
    let empty: Result<Vec<NetInterface>, String> = Ok(vec![]);
    assert!(format_interfaces(&empty).starts_with("No network interfaces found"));
    let failed: Result<Vec<NetInterface>, String> = Err("boom".to_string());
    assert_eq!(
        format_interfaces(&failed),
        "Failed to list network interfaces: boom\nOn Linux you may need root or CAP_NET_RAW; on Windows, install a\nWinPcap-compatible driver (WinPcap or Npcap).\n"
    );
}

#[test]
fn the_menu_offers_every_interface() {
    let ifaces = vec![named("eth0", Some("Wired"), vec!["10.0.0.1", "fe80::1"], true)];
    let menu = interface_menu(&ifaces).unwrap();
    assert_eq!(
        menu,
        "\nPCAP networking: no [network] pcap_interface configured.\nSelect the host interface to bridge the guest onto:\n\n   1) eth0 [up]  10.0.0.1, fe80::1\n        Wired\n\nInterface number (1-1, blank = auto-pick): "
    );
    assert!(interface_menu(&[]).is_none());
    assert_eq!(prompt_for_interface(true, &Ok(ifaces)), Some(menu));
    assert_eq!(prompt_for_interface(false, &Ok(sample())), None);
    assert_eq!(prompt_for_interface(true, &Err("no".to_string())), None);
}

#[test]
fn menu_answers_select_by_number() {
    let ifaces = sample();
    assert_eq!(menu_choice(" \n", &ifaces), MenuChoice::Blank);
    assert_eq!(menu_choice("3\n", &ifaces), MenuChoice::Interface("lo".to_string()));
    assert_eq!(menu_choice("4\n", &ifaces), MenuChoice::Invalid("4".to_string()));
    assert_eq!(menu_choice("eth0\n", &ifaces), MenuChoice::Invalid("eth0".to_string()));
}

#[test]
fn statuses_follow_the_first_open() {
    assert!(is_pcap_mode(NetMode::Pcap) && !is_pcap_mode(NetMode::Nat));
    assert_eq!(open_status(&Ok(())), PcapStatus::Active);
    assert_eq!(open_status(&Err("EPERM".to_string())), PcapStatus::PermissionDenied);
    assert_eq!(open_status(&Err("no such device".to_string())), PcapStatus::DeviceError);
    assert_eq!(PcapEngine::reopened(true), ReopenAction::UseNew);
    assert_eq!(PcapEngine::reopened(false), ReopenAction::KeepOld);
}

fn engine(slots: usize) -> (PcapEngine, rtrb::Producer<Vec<u8>>, rtrb::Consumer<Vec<u8>>) {
    let (tx_prod, tx_cons) = rtrb::RingBuffer::new(4);
    let (rx_prod, rx_cons) = rtrb::RingBuffer::new(slots);
    (PcapEngine::new(None, None, None, tx_cons, rx_prod), tx_prod, rx_cons)
}

fn frame(src: [u8; 6], kind: [u8; 2]) -> Vec<u8> {
    let mut f = vec![0xFF; 6];
    f.extend_from_slice(&src);
    f.extend_from_slice(&kind);
    f.push(1);
    f
}

const GUEST: [u8; 6] = [8, 0, 0x69, 0x0A, 0xBC, 1];

#[test]
fn the_first_frame_shows_the_guest() {
    let (mut e, mut tx, _rx) = engine(4);
    assert!(e.next_tx().is_none());
    tx.push(frame(GUEST, [8, 0])).unwrap();
    tx.push(frame([2; 6], [8, 6])).unwrap();
    let first = e.next_tx().unwrap();
    assert_eq!(first.frame, frame(GUEST, [8, 0]));
    assert!(first.counts);
    assert_eq!(
        first.filter.as_deref(),
        Some("ether dst 08:00:69:0a:bc:01 or ether broadcast or ether multicast")
    );
    assert_eq!(mac_str(&GUEST), "08:00:69:0a:bc:01");
    let second = e.next_tx().unwrap();
    assert!(!second.counts);
    assert!(second.filter.is_none());
    assert!(!e.wants(&frame(GUEST, [8, 0])), "the guest's own frames do not return");
    assert!(e.wants(&frame([2; 6], [8, 6])));
    assert!(!e.wants(&[0; 13]));
}

#[test]
fn received_frames_reach_the_ring_while_there_is_room() {
    let (mut e, _tx, mut rx) = engine(1);
    assert!(e.has_room());
    assert!(e.on_rx(&frame([2; 6], [8, 0])));
    assert!(!e.has_room());
    assert!(!e.on_rx(&frame([3; 6], [8, 0])));
    assert!(!e.deliver(vec![1]));
    assert!(!e.inject(vec![1]));
    assert_eq!(rx.pop().unwrap(), frame([2; 6], [8, 0]));
    assert!(e.has_room());
    assert!(e.inject(vec![7]));
    assert_eq!(rx.pop().unwrap(), vec![7]);
}

#[test]
fn frames_for_the_file_server_stay_off_the_wire() {
    let (mut e, _tx, mut rx) = engine(2);
    assert_eq!(e.on_nfs(None), TxRoute::Wire);
    assert_eq!(e.on_nfs(Some(vec![vec![1], vec![2], vec![3]])), TxRoute::Answered(2));
    assert_eq!(rx.pop().unwrap(), vec![1]);
    assert_eq!(rx.pop().unwrap(), vec![2]);
}

#[test]
fn a_bridge_without_a_capture_drops_frames() {
    let (mut e, mut tx, _rx) = engine(1);
    assert!(!e.drop_tx());
    tx.push(vec![1]).unwrap();
    assert!(e.drop_tx());
    assert!(!e.drop_tx());
}

#[test]
fn the_file_server_needs_a_share_and_an_address() {
    let share = || Some(NfsConfig { shared_dir: "/srv".to_string(), version: NfsVersion::Auto });
    let make = |nfs, ip| {
        let (_p, c) = rtrb::RingBuffer::new(1);
        let (p, _c) = rtrb::RingBuffer::new(1);
        PcapEngine::new(Some("eth0".to_string()), nfs, ip, c, p)
    };
    let ip = Ipv4Addr::new(192, 168, 1, 213);
    assert!(make(share(), None).nfs_host().is_none());
    assert!(make(None, Some(ip)).nfs_host().is_none());
    let mut e = make(share(), Some(ip));
    assert_eq!(e.nfs_host().as_ref().unwrap().0, ip);
    assert_eq!(e.interface(&Ok(sample())).unwrap(), "eth0");
    e.set_interface(Some("2".to_string()));
    assert_eq!(e.interface(&Ok(sample())).unwrap(), r"\Device\NPF_{ABC-123}");
}

#[test]
fn frames_leave_the_ring_in_their_order() {
    let (mut e, mut tx, _rx) = engine(1);
    for n in 1..=4 {
        tx.push(vec![n]).unwrap();
    }
    assert_eq!(e.next_tx().unwrap().frame, vec![1]);
    assert!(e.drop_tx());
    assert_eq!(e.next_tx().unwrap().frame, vec![3]);
    tx.push(vec![5]).unwrap();
    assert_eq!(e.next_tx().unwrap().frame, vec![4]);
    assert_eq!(e.next_tx().unwrap().frame, vec![5]);
    assert!(e.next_tx().is_none());
}
