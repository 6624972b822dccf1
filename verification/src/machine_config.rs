//! The configuration of a whole machine: its defaults, what makes it acceptable,
//! and the settings that the network backends take from it.
use std::collections::HashMap;
use vstd::prelude::*;
use crate::config::copy_nfs;
use crate::config::AudioConfig;
use crate::config::ClockConfig;
use crate::config::DebugConfig;
use crate::config::GraphicsBoard;
use crate::config::GraphicsSection;
use crate::config::ImpactSection;
use crate::config::Jitv2Config;
use crate::config::MachineProfile;
use crate::config::MachineSection;
use crate::config::NatSubnet;
use crate::config::NetworkConfig;
use crate::config::NetworkSection;
use crate::config::NfsConfig;
use crate::config::PerfConfig;
use crate::config::PortForwardConfig;
use crate::config::Real;
use crate::config::ScsiDeviceConfig;
use crate::config::ScsiKind;
use crate::config::Ultra64Config;
use crate::config::VinoConfig;
use crate::config::DEFAULT_MAC;
use crate::config::VALID_BANK_SIZES;
use crate::net_addr::parse_mac;
use crate::net_addr::parse_nat_subnet;
use crate::net_addr::Ipv4Addr;
use crate::rtc::RtcOffset;
use crate::text::chars_of;
use crate::text::copy_opt;
use crate::text::find_last_char;
use crate::text::has_prefix;
use crate::text::owned;
use crate::text::parse_number;
use crate::text::push_decimal;
use crate::text::slice_of;
use crate::text::string_of;
use crate::text::trim_chars;

verus! {

/// Top-level machine configuration.
#[derive(Debug, Clone)]
pub struct MachineConfig {
    /// Path to the PROM image.
    pub prom: String,
    /// Path to the NVRAM file.
    pub nvram: String,
    /// Path to the Indigo2 motherboard EEPROM file.
    pub nveeprom: String,
    /// RAM bank sizes in MB.
    pub banks: [u32; 4],
    /// Window scale factor.
    pub scale: u32,
    /// Run without graphics.
    pub headless: bool,
    /// Disable audio emulation.
    pub no_audio: bool,
    /// TCP port of the GDB stub.
    pub gdb_port: Option<u16>,
    /// Binary to load in place of the PROM.
    pub load_elf: Option<String>,
    /// Map the bare-metal test device.
    pub test_device: bool,
    /// Where the test device writes its dump.
    pub test_device_dump: Option<String>,
    /// A guest write to CP0 register 26 dumps machine state.
    pub cheritest_dump_hook: bool,
    /// NAT subnet in CIDR notation.
    pub nat_subnet: Option<String>,
    /// Open a control socket for automation. Implies headless unless `ci_display` is
    /// set.
    pub ci: bool,
    /// Address of the control socket.
    pub ci_socket: String,
    /// With `ci`, keep the window visible.
    pub ci_display: bool,
    /// Host wheel movement that equals one scroll detent.
    pub mouse_scroll_pixels_per_line: Real,
    /// Lock the window's aspect ratio to the emulated display.
    pub lock_aspect_ratio: bool,
    /// File that receives every byte of the serial console.
    pub serial_log: Option<String>,
    /// SCSI devices keyed by id 1 to 7. Missing ids are not attached.
    pub scsi: HashMap<u8, ScsiDeviceConfig>,
    /// NFS share.
    pub nfs: Option<NfsConfig>,
    /// Port forwarding rules.
    pub port_forward: Vec<PortForwardConfig>,
    pub vino: VinoConfig,
    pub network: NetworkSection,
    /// Defer SCSI status interrupts.
    pub scsi_deferred_int: bool,
    pub audio: AudioConfig,
    pub machine: MachineSection,
    pub graphics: GraphicsSection,
    pub impact: ImpactSection,
    pub debug: DebugConfig,
    pub jitv2: Jitv2Config,
    pub perf: PerfConfig,
    pub clock: ClockConfig,
    /// Offset of the guest's real-time clock from host time.
    pub rtc_offset: RtcOffset,
    pub ultra64: Ultra64Config,
}

// ---------------------------------------------------------------------------
// The control socket
// ---------------------------------------------------------------------------

/// The part of `s` behind its last colon.
pub open spec fn after_last_colon(s: Seq<char>) -> Option<Seq<char>> {
    match crate::text::last_before(s, ':', s.len() as int) {
        Some(i) => Some(s.skip(i + 1)),
        None => None,
    }
}

/// A control socket address that names a TCP `host:port`: one with the prefix
/// `tcp:`, or one that is no file system path and ends in a port number behind a
/// colon.
pub open spec fn names_tcp(path: Seq<char>) -> bool {
    let t = crate::text::trimmed(path);
    crate::text::begins_with(t, "tcp:"@) || (t.len() > 0 && t[0] != '\\' && t[0] != '/'
        && match after_last_colon(t) {
        Some(port) => crate::text::parsed(port, 10, 65_535) is Some,
        None => false,
    })
}

/// True when the control socket is a TCP `host:port` address.
pub fn ci_socket_is_tcp(path: &str) -> (r: bool)
    ensures
        r == names_tcp(path@),
{
    let t = trim_chars(path);
    if has_prefix(&t, &chars_of("tcp:")) {
        return true;
    }
    if t.len() == 0 {
        return false;
    }
    if t[0] == '\\' || t[0] == '/' {
        return false;
    }
    match find_last_char(&t, ':') {
        Some(i) => {
            let port = slice_of(&t, i + 1, t.len());
            proof {
                assert(port@ =~= t@.skip(i + 1));
            }
            parse_number(&port, 10, 65_535).is_some()
        },
        None => false,
    }
}

/// A control socket address without the blanks around it and without the prefix `tcp:`.
pub open spec fn tcp_addr(path: Seq<char>) -> Seq<char> {
    let t = crate::text::trimmed(path);
    if crate::text::begins_with(t, "tcp:"@) {
        t.skip("tcp:"@.len() as int)
    } else {
        t
    }
}

/// The prefix `tcp:` goes, once; an address without it stays as it is.
pub proof fn law_tcp_addresses(addr: Seq<char>)
    requires
        addr.len() > 0,
        !crate::text::is_white_space(addr[0]),
        !crate::text::is_white_space(addr.last()),
    ensures
        tcp_addr("tcp:"@ + addr) == addr,
        !crate::text::begins_with(addr, "tcp:"@) ==> tcp_addr(addr) == addr,
{
    reveal_strlit("tcp:");
    let full = "tcp:"@ + addr;
    assert(full[0] == 't');
    assert(full.last() == addr.last());
    crate::text::law_trimmed_texts_stay(full);
    crate::text::law_trimmed_texts_stay(addr);
    assert(full.take(4) =~= "tcp:"@);
    assert(full.skip(4) =~= addr);
}

/// Normalizes a control socket address to `host:port`: the blanks around it and
/// the prefix `tcp:` go.
pub fn ci_socket_tcp_addr(path: &str) -> (r: String)
    ensures
        r@ == {
            let t = crate::text::trimmed(path@);
            if crate::text::begins_with(t, "tcp:"@) {
                t.skip("tcp:"@.len() as int)
            } else {
                t
            }
        },
        r@ == tcp_addr(path@),
{
    let t = trim_chars(path);
    let prefix = chars_of("tcp:");
    if has_prefix(&t, &prefix) {
        let rest = slice_of(&t, prefix.len(), t.len());
        proof {
            assert(rest@ =~= t@.skip("tcp:"@.len() as int));
        }
        string_of(&rest)
    } else {
        string_of(&t)
    }
}

/// The control socket when none is configured: a TCP port on Windows, a Unix
/// socket elsewhere.
pub fn default_ci_socket(windows: bool) -> (r: String)
    ensures
        r@ == if windows { "127.0.0.1:19851"@ } else { "/tmp/iris.sock"@ },
{
    if windows {
        owned("127.0.0.1:19851")
    } else {
        owned("/tmp/iris.sock")
    }
}

// ---------------------------------------------------------------------------
// Defaults
// ---------------------------------------------------------------------------

/// The devices of a configuration, as plain values.
pub open spec fn devices(scsi: Map<u8, ScsiDeviceConfig>) -> Map<u8, crate::config::DeviceView> {
    scsi.map_values(|d: ScsiDeviceConfig| d@)
}

/// The devices of a machine that configures none: a hard disk at id 1 and a
/// CD-ROM drive at id 4.
pub open spec fn default_devices() -> Map<u8, crate::config::DeviceView> {
    let disk = crate::config::DeviceView {
        path: "scsi1.raw"@,
        ..crate::config::DeviceView::blank()
    };
    let cdrom = crate::config::DeviceView {
        path: "cdrom4.iso"@,
        cdrom: true,
        ..crate::config::DeviceView::blank()
    };
    Map::<u8, crate::config::DeviceView>::empty().insert(1, disk).insert(4, cdrom)
}

/// A hard disk at id 1 and a CD-ROM drive at id 4.
pub fn default_scsi() -> (r: HashMap<u8, ScsiDeviceConfig>)
    ensures
        devices(r@) == default_devices(),
{
    let mut disk = ScsiDeviceConfig::default();
    disk.path = owned("scsi1.raw");
    let mut cdrom = ScsiDeviceConfig::default();
    cdrom.path = owned("cdrom4.iso");
    cdrom.cdrom = true;
    let mut map: HashMap<u8, ScsiDeviceConfig> = HashMap::new();
    map.insert(1, disk);
    map.insert(4, cdrom);
    proof {
        assert(devices(map@) =~= default_devices());
    }
    map
}

impl MachineConfig {
    /// The configuration of a machine for which nothing is configured, on Windows or
    /// elsewhere: only the control socket differs.
    pub fn for_host(windows: bool) -> (r: Self)
        ensures
            r.prom@ == "prom.bin"@,
            r.nvram@ == "nvram.bin"@,
            r.nveeprom@ == "nveeprom.bin"@,
            r.banks@ == seq![128u32, 128u32, 0u32, 0u32],
            r.scale == 1,
            !r.headless && !r.no_audio,
            r.gdb_port is None && r.load_elf is None,
            !r.test_device && r.test_device_dump is None && !r.cheritest_dump_hook,
            r.nat_subnet is None,
            !r.ci && !r.ci_display && r.serial_log is None,
            r.ci_socket@ == if windows { "127.0.0.1:19851"@ } else { "/tmp/iris.sock"@ },
            r.mouse_scroll_pixels_per_line.bits == 0x4044_0000_0000_0000,
            r.mouse_scroll_pixels_per_line.text@ == "40"@,
            r.lock_aspect_ratio && r.scsi_deferred_int,
            devices(r.scsi@) == default_devices(),
            r.nfs is None,
            r.port_forward@ == Seq::<PortForwardConfig>::empty(),
            r.vino.source == crate::config::VinoSource::Off,
            r.vino.standard == crate::config::VinoStandard::Ntsc,
            r.vino.camera_index == 0,
            r.network.mode == crate::config::NetMode::Nat,
            r.network.pcap_interface is None && r.network.nfs_pcap_ip is None,
            r.network.mac is None && r.network.tftp_dir is None,
            r.audio == (AudioConfig { prebuf_ms: 20, cpal_buffer_frames: None }),
            r.machine.profile == MachineProfile::IndyIp24,
            r.machine.cpu == crate::config::CpuModel::R4400,
            r.graphics.board == GraphicsBoard::Newport,
            r.graphics.heads == 1,
            r.graphics.resolution == crate::config::NewportResolution::Guest,
            !r.impact.populated(),
            !r.debug.gui_gl_capture && !r.debug.no_idle,
            r.debug.debug_log@ == Seq::<char>::empty(),
            r.jitv2.threads == 1,
            !r.perf.thread_affinity && r.perf.cpu_core is None,
            r.perf.rex3_core is None && r.perf.refresh_core is None,
            r.clock.fixed_mhz is None,
            r.rtc_offset.zero(),
            !r.ultra64.enabled,
            r.error() is None,
    {
        let r = MachineConfig {
            prom: owned("prom.bin"),
            nvram: owned("nvram.bin"),
            nveeprom: owned("nveeprom.bin"),
            banks: [128, 128, 0, 0],
            scsi: default_scsi(),
            scale: 1,
            nfs: None,
            port_forward: Vec::new(),
            headless: false,
            no_audio: false,
            gdb_port: None,
            load_elf: None,
            test_device: false,
            test_device_dump: None,
            cheritest_dump_hook: false,
            nat_subnet: None,
            ci: false,
            ci_socket: default_ci_socket(windows),
            ci_display: false,
            serial_log: None,
            vino: VinoConfig::default(),
            network: NetworkSection::default(),
            mouse_scroll_pixels_per_line: Real {
                bits: 0x4044_0000_0000_0000,
                text: owned("40"),
            },
            lock_aspect_ratio: true,
            scsi_deferred_int: true,
            audio: AudioConfig::default(),
            machine: MachineSection::default(),
            graphics: GraphicsSection::default(),
            impact: ImpactSection::default(),
            debug: DebugConfig::default(),
            jitv2: Jitv2Config::default(),
            perf: PerfConfig::default(),
            clock: ClockConfig::default(),
            rtc_offset: RtcOffset::default(),
            ultra64: Ultra64Config::default(),
        };
        proof {
            lemma_defaults_are_accepted(r);
        }
        r
    }
}

impl Default for MachineConfig {
    /// What `for_host` gives on this host, which is taken for Windows if it separates the
    /// components of a path by `\`: the control socket is one of the two.
    fn default() -> (r: Self)
        ensures
            r.prom@ == "prom.bin"@,
            r.nvram@ == "nvram.bin"@,
            r.nveeprom@ == "nveeprom.bin"@,
            r.banks@ == seq![128u32, 128u32, 0u32, 0u32],
            r.scale == 1,
            !r.headless && !r.no_audio,
            r.gdb_port is None && r.load_elf is None,
            !r.test_device && r.test_device_dump is None && !r.cheritest_dump_hook,
            r.nat_subnet is None,
            !r.ci && !r.ci_display && r.serial_log is None,
            r.ci_socket@ == "/tmp/iris.sock"@ || r.ci_socket@ == "127.0.0.1:19851"@,
            r.mouse_scroll_pixels_per_line.bits == 0x4044_0000_0000_0000,
            r.mouse_scroll_pixels_per_line.text@ == "40"@,
            r.lock_aspect_ratio && r.scsi_deferred_int,
            devices(r.scsi@) == default_devices(),
            r.nfs is None,
            r.port_forward@ == Seq::<PortForwardConfig>::empty(),
            r.vino.source == crate::config::VinoSource::Off,
            r.vino.standard == crate::config::VinoStandard::Ntsc,
            r.vino.camera_index == 0,
            r.network.mode == crate::config::NetMode::Nat,
            r.network.pcap_interface is None && r.network.nfs_pcap_ip is None,
            r.network.mac is None && r.network.tftp_dir is None,
            r.audio == (AudioConfig { prebuf_ms: 20, cpal_buffer_frames: None }),
            r.machine.profile == MachineProfile::IndyIp24,
            r.machine.cpu == crate::config::CpuModel::R4400,
            r.graphics.board == GraphicsBoard::Newport,
            r.graphics.heads == 1,
            r.graphics.resolution == crate::config::NewportResolution::Guest,
            !r.impact.populated(),
            !r.debug.gui_gl_capture && !r.debug.no_idle,
            r.debug.debug_log@ == Seq::<char>::empty(),
            r.jitv2.threads == 1,
            !r.perf.thread_affinity && r.perf.cpu_core is None,
            r.perf.rex3_core is None && r.perf.refresh_core is None,
            r.clock.fixed_mhz is None,
            r.rtc_offset.zero(),
            !r.ultra64.enabled,
            r.error() is None,
    {
        MachineConfig::for_host(std::path::is_separator('\\'))
    }
}

// ---------------------------------------------------------------------------
// Validation
// ---------------------------------------------------------------------------

/// The subnet that `ec0` is on: the configured one, or 192.168.0.0/24.
pub open spec fn main_gateway(nat_subnet: Option<Seq<char>>) -> int {
    match nat_subnet {
        Some(c) => crate::net_addr::subnet_base(c) + 1,
        None => crate::net_addr::address(192, 168, 0, 1),
    }
}

/// What is wrong with the controller of a device, if anything.
pub open spec fn controller_error(id: int, controller: u8, profile: MachineProfile) -> Option<
    Seq<char>,
> {
    if controller != 0 && profile != MachineProfile::Indigo2Ip22 {
        Some(
            "scsi."@ + crate::text::decimal(id as nat) + ": controller "@ + crate::text::decimal(
                controller as nat,
            )
                + " is only valid on Indigo2 (machine.profile = indigo2_ip22) — Indy has a single SCSI controller (0)"@,
        )
    } else if controller > 1 {
        Some(
            "scsi."@ + crate::text::decimal(id as nat) + ": controller "@ + crate::text::decimal(
                controller as nat,
            ) + " is invalid (valid: 0, 1)"@,
        )
    } else {
        None
    }
}

/// The first wrong controller, in the order of the ids from `from` on.
pub open spec fn controllers_error(
    devs: Map<u8, crate::config::DeviceView>,
    profile: MachineProfile,
    from: int,
) -> Option<Seq<char>>
    decreases 256 - from,
{
    if from < 0 || from >= 256 {
        None
    } else {
        let rest = controllers_error(devs, profile, from + 1);
        if devs.contains_key(from as u8) {
            crate::config::first_of(
                controller_error(from, devs[from as u8].controller, profile),
                rest,
            )
        } else {
            rest
        }
    }
}

/// What is wrong with a device at an id, if anything: the id itself, or a
/// DaynaPort that has disk options, a bad address, a bad subnet, or a subnet that
/// `ec0` is on already.
pub open spec fn device_error(
    id: int,
    dev: crate::config::DeviceView,
    main_gateway: int,
) -> Option<Seq<char>> {
    let at = "SCSI ID "@ + crate::text::decimal(id as nat);
    if id == 0 || id > 7 {
        Some(at + " is out of range (1–7)"@)
    } else if dev.kind() != ScsiKind::Daynaport {
        None
    } else if dev.cdrom || dev.overlay || dev.scratch {
        Some(
            at
                + ": kind = \"daynaport\" has no disk image, so cdrom / overlay / scratch don't apply"@,
        )
    } else if dev.mac is Some && crate::net_addr::mac_error(dev.mac.unwrap()) is Some {
        Some(at + ": mac: "@ + crate::net_addr::mac_error(dev.mac.unwrap()).unwrap())
    } else if dev.subnet is Some && crate::net_addr::subnet_error(dev.subnet.unwrap()) is Some {
        Some(
            at + ": subnet \""@ + dev.subnet.unwrap() + "\": "@ + crate::net_addr::subnet_error(
                dev.subnet.unwrap(),
            ).unwrap(),
        )
    } else if dev.gateway() == main_gateway {
        Some(
            at + ": DaynaPort subnet "@ + Ipv4Addr(dev.gateway() as u32).dotted()
                + " collides with the machine's NAT subnet (ec0). Give the DaynaPort its own, e.g. subnet = \"192.168.10.0/24\"."@,
        )
    } else {
        None
    }
}

/// The first wrong device, in the order of the ids from `from` on.
pub open spec fn devices_error(
    devs: Map<u8, crate::config::DeviceView>,
    main_gateway: int,
    from: int,
) -> Option<Seq<char>>
    decreases 256 - from,
{
    if from < 0 || from >= 256 {
        None
    } else {
        let rest = devices_error(devs, main_gateway, from + 1);
        if devs.contains_key(from as u8) {
            crate::config::first_of(device_error(from, devs[from as u8], main_gateway), rest)
        } else {
            rest
        }
    }
}

/// A bank size that exists.
pub open spec fn valid_bank(size: u32) -> bool {
    size == 0 || size == 8 || size == 16 || size == 32 || size == 64 || size == 128
}

/// The first bank from `from` on whose size does not exist.
pub open spec fn banks_error(banks: Seq<u32>, from: int) -> Option<Seq<char>>
    decreases banks.len() - from,
{
    if from < 0 || from >= banks.len() {
        None
    } else if !valid_bank(banks[from]) {
        Some(
            "bank"@ + crate::text::decimal(from as nat) + " size "@ + crate::text::decimal(
                banks[from] as nat,
            ) + " MB is invalid (valid: [0, 8, 16, 32, 64, 128])"@,
        )
    } else {
        banks_error(banks, from + 1)
    }
}

impl MachineConfig {
    /// What is wrong with the graphics options, if anything.
    pub open spec fn graphics_error(self) -> Option<Seq<char>> {
        if self.graphics.heads != 1 && self.graphics.heads != 2 {
            Some(
                "graphics.heads "@ + crate::text::decimal(self.graphics.heads as nat)
                    + " is invalid (valid: 1, 2)"@,
            )
        } else if self.graphics.board != GraphicsBoard::Xz {
            None
        } else if self.machine.profile != MachineProfile::IndyIp24 {
            Some("graphics.board \"xz\" is only valid on Indy (machine.profile = indy_ip24)"@)
        } else if self.graphics.heads != 1 {
            Some(
                "graphics.board \"xz\" does not support dual-head (graphics.heads must be 1)"@,
            )
        } else if self.graphics.resolution != crate::config::NewportResolution::Guest {
            Some("graphics.resolution presets require Newport (graphics.board = newport)"@)
        } else {
            None
        }
    }

    /// What is wrong with the IMPACT slots, if anything.
    pub open spec fn impact_error(self) -> Option<Seq<char>> {
        if self.impact.populated() && self.machine.profile != MachineProfile::Indigo2Ip22 {
            Some("[impact] slots are preview-only on Indigo2 (machine.profile = indigo2_ip22)"@)
        } else {
            self.impact.error()
        }
    }

    /// What is wrong with the window scale, if anything.
    pub open spec fn scale_error(self) -> Option<Seq<char>> {
        if self.scale < 1 || self.scale > 4 {
            Some(
                "scale "@ + crate::text::decimal(self.scale as nat)
                    + " is invalid (valid: 1, 2, 3, 4)"@,
            )
        } else {
            None
        }
    }

    /// What is wrong with the NAT subnet, if anything.
    pub open spec fn nat_error(self) -> Option<Seq<char>> {
        match self.nat_subnet {
            Some(s) => match crate::net_addr::subnet_error(s@) {
                Some(e) => Some("nat_subnet \""@ + s@ + "\": "@ + e),
                None => None,
            },
            None => None,
        }
    }

    /// What is wrong with the station address of `ec0`, if anything.
    pub open spec fn station_error(self) -> Option<Seq<char>> {
        match self.network.mac {
            Some(s) => match crate::net_addr::mac_error(s@) {
                Some(e) => Some("network.mac: "@ + e),
                None => None,
            },
            None => None,
        }
    }

    /// What is wrong with the clock, if anything.
    pub open spec fn clock_error(self) -> Option<Seq<char>> {
        match self.clock.fixed_mhz {
            Some(mhz) => if mhz.positive_finite() {
                None
            } else {
                Some(
                    "clock.fixed_mhz "@ + mhz.text@
                        + " is invalid (must be a positive number)"@,
                )
            },
            None => None,
        }
    }

    /// What is wrong with the compile pool, if anything.
    pub open spec fn pool_error(self) -> Option<Seq<char>> {
        if self.jitv2.threads == 0 {
            Some(
                "jitv2.threads must be at least 1 — 0 would silently degrade to no compile threads, everything sticky-fails to compile forever"@,
            )
        } else {
            None
        }
    }

    /// What is wrong with the configuration, if anything. The first finding
    /// counts, in the order of this list; devices are looked at in the order of
    /// their ids.
    pub open spec fn error(self) -> Option<Seq<char>> {
        let devs = devices(self.scsi@);
        let main = main_gateway(crate::text::opt_text(self.nat_subnet));
        crate::config::first_of(
            self.graphics_error(),
            crate::config::first_of(
                self.impact_error(),
                crate::config::first_of(
                    controllers_error(devs, self.machine.profile, 0),
                    crate::config::first_of(
                        self.scale_error(),
                        crate::config::first_of(
                            banks_error(self.banks@, 0),
                            crate::config::first_of(
                                self.nat_error(),
                                crate::config::first_of(
                                    self.station_error(),
                                    crate::config::first_of(
                                        devices_error(devs, main, 0),
                                        crate::config::first_of(
                                            self.clock_error(),
                                            self.pool_error(),
                                        ),
                                    ),
                                ),
                            ),
                        ),
                    ),
                ),
            ),
        )
    }

    fn check_graphics(&self) -> (r: Result<(), String>)
        ensures
            match r {
                Ok(_) => self.graphics_error() is None,
                Err(e) => self.graphics_error() == Some(e@),
            },
    {
        if self.graphics.heads != 1 && self.graphics.heads != 2 {
            let mut e = owned("graphics.heads ");
            push_decimal(&mut e, self.graphics.heads as u64);
            e.append(" is invalid (valid: 1, 2)");
            return Err(e);
        }
        if self.graphics.board == GraphicsBoard::Xz {
            if self.machine.profile != MachineProfile::IndyIp24 {
                return Err(
                    owned(
                        "graphics.board \"xz\" is only valid on Indy (machine.profile = indy_ip24)",
                    ),
                );
            }
            if self.graphics.heads != 1 {
                return Err(
                    owned(
                        "graphics.board \"xz\" does not support dual-head (graphics.heads must be 1)",
                    ),
                );
            }
            if !self.graphics.resolution.is_guest() {
                return Err(
                    owned("graphics.resolution presets require Newport (graphics.board = newport)"),
                );
            }
        }
        Ok(())
    }

    fn check_impact(&self) -> (r: Result<(), String>)
        ensures
            match r {
                Ok(_) => self.impact_error() is None,
                Err(e) => self.impact_error() == Some(e@),
            },
    {
        if self.impact.any_enabled() && self.machine.profile != MachineProfile::Indigo2Ip22 {
            return Err(
                owned(
                    "[impact] slots are preview-only on Indigo2 (machine.profile = indigo2_ip22)",
                ),
            );
        }
        self.impact.validate()
    }

    fn check_controllers(&self) -> (r: Result<(), String>)
        ensures
            match r {
                Ok(_) => controllers_error(devices(self.scsi@), self.machine.profile, 0) is None,
                Err(e) => controllers_error(devices(self.scsi@), self.machine.profile, 0) == Some(
                    e@,
                ),
            },
    {
        let ghost devs = devices(self.scsi@);
        let profile = self.machine.profile;
        let mut id: u16 = 0;
        while id < 256
            invariant
                id <= 256,
                devs == devices(self.scsi@),
                profile == self.machine.profile,
                controllers_error(devs, profile, 0) == controllers_error(devs, profile, id as int),
            decreases 256 - id,
        {
            match self.scsi.get(&(id as u8)) {
                Some(dev) => {
                    proof {
                        assert(devs[id as u8] == dev@);
                    }
                    if dev.controller != 0 && profile != MachineProfile::Indigo2Ip22 {
                        let mut e = owned("scsi.");
                        push_decimal(&mut e, id as u64);
                        e.append(": controller ");
                        push_decimal(&mut e, dev.controller as u64);
                        e.append(
                            " is only valid on Indigo2 (machine.profile = indigo2_ip22) — Indy has a single SCSI controller (0)",
                        );
                        return Err(e);
                    }
                    if dev.controller > 1 {
                        let mut e = owned("scsi.");
                        push_decimal(&mut e, id as u64);
                        e.append(": controller ");
                        push_decimal(&mut e, dev.controller as u64);
                        e.append(" is invalid (valid: 0, 1)");
                        return Err(e);
                    }
                },
                None => {},
            }
            id = id + 1;
        }
        Ok(())
    }

    fn check_banks(&self) -> (r: Result<(), String>)
        ensures
            match r {
                Ok(_) => banks_error(self.banks@, 0) is None,
                Err(e) => banks_error(self.banks@, 0) == Some(e@),
            },
    {
        let mut i: usize = 0;
        while i < 4
            invariant
                i <= 4,
                banks_error(self.banks@, 0) == banks_error(self.banks@, i as int),
            decreases 4 - i,
        {
            let size: u32 = self.banks[i];
            if !(size == VALID_BANK_SIZES[0] || size == VALID_BANK_SIZES[1] || size
                == VALID_BANK_SIZES[2] || size == VALID_BANK_SIZES[3] || size == VALID_BANK_SIZES[4]
                || size == VALID_BANK_SIZES[5]) {
                let mut e = owned("bank");
                push_decimal(&mut e, i as u64);
                e.append(" size ");
                push_decimal(&mut e, size as u64);
                e.append(" MB is invalid (valid: [0, 8, 16, 32, 64, 128])");
                return Err(e);
            }
            i = i + 1;
        }
        Ok(())
    }

    /// The gateway of the subnet that `ec0` is on.
    fn main_gateway_ip(&self) -> (r: Result<Ipv4Addr, String>)
        ensures
            match r {
                Ok(g) => self.nat_error() is None && g.0 == main_gateway(
                    crate::text::opt_text(self.nat_subnet),
                ),
                Err(e) => self.nat_error() == Some(e@),
            },
    {
        match &self.nat_subnet {
            Some(s) => match parse_nat_subnet(s.as_str()) {
                Ok((gateway, _, _)) => Ok(gateway),
                Err(why) => {
                    let mut e = owned("nat_subnet \"");
                    e.append(s.as_str());
                    e.append("\": ");
                    e.append(why.as_str());
                    Err(e)
                },
            },
            None => Ok(Ipv4Addr::new(192, 168, 0, 1)),
        }
    }

    fn check_station(&self) -> (r: Result<(), String>)
        ensures
            match r {
                Ok(_) => self.station_error() is None,
                Err(e) => self.station_error() == Some(e@),
            },
    {
        match &self.network.mac {
            Some(s) => match parse_mac(s.as_str()) {
                Ok(_) => Ok(()),
                Err(why) => {
                    let mut e = owned("network.mac: ");
                    e.append(why.as_str());
                    Err(e)
                },
            },
            None => Ok(()),
        }
    }

    fn check_devices(&self, main: Ipv4Addr) -> (r: Result<(), String>)
        ensures
            match r {
                Ok(_) => devices_error(devices(self.scsi@), main.0 as int, 0) is None,
                Err(e) => devices_error(devices(self.scsi@), main.0 as int, 0) == Some(e@),
            },
    {
        let ghost devs = devices(self.scsi@);
        let mut id: u16 = 0;
        while id < 256
            invariant
                id <= 256,
                devs == devices(self.scsi@),
                devices_error(devs, main.0 as int, 0) == devices_error(
                    devs,
                    main.0 as int,
                    id as int,
                ),
            decreases 256 - id,
        {
            match self.scsi.get(&(id as u8)) {
                Some(dev) => {
                    proof {
                        assert(devs[id as u8] == dev@);
                    }
                    match check_device(id as u8, dev, main) {
                        Ok(_) => {},
                        Err(e) => {
                            return Err(e);
                        },
                    }
                },
                None => {},
            }
            id = id + 1;
        }
        Ok(())
    }

    fn check_clock(&self) -> (r: Result<(), String>)
        ensures
            match r {
                Ok(_) => self.clock_error() is None,
                Err(e) => self.clock_error() == Some(e@),
            },
    {
        match &self.clock.fixed_mhz {
            Some(mhz) => {
                if !mhz.is_positive_finite() {
                    let mut e = owned("clock.fixed_mhz ");
                    e.append(mhz.text.as_str());
                    e.append(" is invalid (must be a positive number)");
                    return Err(e);
                }
                Ok(())
            },
            None => Ok(()),
        }
    }

    /// Whether the machine can be built as configured; the error says what is
    /// wrong first.
    pub fn validate(&self) -> (r: Result<(), String>)
        ensures
            match r {
                Ok(_) => self.error() is None,
                Err(e) => self.error() == Some(e@),
            },
    {
        match self.check_graphics() {
            Ok(_) => {},
            Err(e) => {
                return Err(e);
            },
        }
        match self.check_impact() {
            Ok(_) => {},
            Err(e) => {
                return Err(e);
            },
        }
        match self.check_controllers() {
            Ok(_) => {},
            Err(e) => {
                return Err(e);
            },
        }
        if self.scale < 1 || self.scale > 4 {
            let mut e = owned("scale ");
            push_decimal(&mut e, self.scale as u64);
            e.append(" is invalid (valid: 1, 2, 3, 4)");
            return Err(e);
        }
        match self.check_banks() {
            Ok(_) => {},
            Err(e) => {
                return Err(e);
            },
        }
        let main = match self.main_gateway_ip() {
            Ok(main) => main,
            Err(e) => {
                return Err(e);
            },
        };
        match self.check_station() {
            Ok(_) => {},
            Err(e) => {
                return Err(e);
            },
        }
        match self.check_devices(main) {
            Ok(_) => {},
            Err(e) => {
                return Err(e);
            },
        }
        match self.check_clock() {
            Ok(_) => {},
            Err(e) => {
                return Err(e);
            },
        }
        if self.jitv2.threads == 0 {
            return Err(
                owned(
                    "jitv2.threads must be at least 1 — 0 would silently degrade to no compile threads, everything sticky-fails to compile forever",
                ),
            );
        }
        Ok(())
    }

    /// The network settings, with subnet and station address parsed. They must be
    /// well-formed, as [`MachineConfig::validate`] makes sure.
    pub fn network(&self) -> (r: NetworkConfig)
        requires
            self.nat_error() is None,
            self.station_error() is None,
        ensures
            crate::config::nfs_view(r.nfs) == crate::config::nfs_view(self.nfs),
            r.port_forward@ == self.port_forward@,
            match (self.nat_subnet, r.nat_subnet) {
                (Some(c), Some(s)) => {
                    &&& s.gateway_ip.0 == crate::net_addr::subnet_base(c@) + 1
                    &&& s.client_ip.0 == crate::net_addr::subnet_base(c@) + 2
                    &&& s.netmask.0 == 0x1_0000_0000 - crate::net_addr::span(
                        crate::net_addr::subnet_prefix(c@),
                    )
                    &&& (s.gateway_ip.0 as int, s.client_ip.0 as int, s.netmask.0 as int)
                        == crate::net_addr::hosts_of(c@)
                },
                (None, None) => true,
                _ => false,
            },
            r.mode == self.network.mode,
            crate::text::opt_text(r.pcap_interface) == crate::text::opt_text(
                self.network.pcap_interface,
            ),
            r.nfs_pcap_ip == self.network.nfs_pcap_ip,
            r.mac@ == match self.network.mac {
                Some(s) => crate::net_addr::mac_octets(s@),
                None => DEFAULT_MAC@,
            },
            crate::text::opt_text(r.tftp_dir) == crate::text::opt_text(self.network.tftp_dir),
    {
        let nat_subnet = match &self.nat_subnet {
            Some(cidr) => {
                let parsed = parse_nat_subnet(cidr.as_str());
                proof {
                    assert(parsed is Ok);
                }
                let (gateway_ip, client_ip, netmask) = parsed.unwrap();
                Some(NatSubnet { gateway_ip, client_ip, netmask })
            },
            None => None,
        };
        let mac: [u8; 6] = match &self.network.mac {
            Some(s) => {
                let parsed = parse_mac(s.as_str());
                proof {
                    assert(parsed is Ok);
                }
                parsed.unwrap()
            },
            None => DEFAULT_MAC,
        };
        let mut port_forward: Vec<PortForwardConfig> = Vec::new();
        let mut i: usize = 0;
        while i < self.port_forward.len()
            invariant
                i <= self.port_forward.len(),
                port_forward@ == self.port_forward@.take(i as int),
            decreases self.port_forward.len() - i,
        {
            port_forward.push(self.port_forward[i]);
            i = i + 1;
            proof {
                assert(self.port_forward@.take(i as int) =~= self.port_forward@.take(i - 1).push(
                    self.port_forward@[i - 1],
                ));
            }
        }
        proof {
            assert(self.port_forward@.take(i as int) =~= self.port_forward@);
        }
        NetworkConfig {
            nfs: copy_nfs(&self.nfs),
            port_forward,
            nat_subnet,
            mode: self.network.mode,
            pcap_interface: copy_opt(&self.network.pcap_interface),
            nfs_pcap_ip: self.network.nfs_pcap_ip,
            mac,
            tftp_dir: copy_opt(&self.network.tftp_dir),
        }
    }

    /// The disc that a CD-ROM drive starts with: the first of the changer's list,
    /// or the path where there is no list.
    pub fn active_disc(dev: &ScsiDeviceConfig) -> (r: &str)
        ensures
            r@ == if dev@.discs.len() > 0 {
                dev@.discs[0]
            } else {
                dev@.path
            },
            r@ == first_disc(dev@),
    {
        if dev.discs.len() > 0 {
            dev.discs[0].as_str()
        } else {
            dev.path.as_str()
        }
    }
}

/// The disc that a drive starts with.
pub open spec fn first_disc(dev: crate::config::DeviceView) -> Seq<char> {
    if dev.discs.len() > 0 {
        dev.discs[0]
    } else {
        dev.path
    }
}

/// A drive with a list of discs starts with the first of them, whatever its path; one without
/// a list with its path.
pub proof fn law_first_disc(dev: crate::config::DeviceView, disc: Seq<char>, rest: Seq<Seq<char>>)
    ensures
        first_disc(crate::config::DeviceView { discs: seq![disc] + rest, ..dev }) == disc,
        first_disc(crate::config::DeviceView { discs: seq![], ..dev }) == dev.path,
{
}

fn check_device(id: u8, dev: &ScsiDeviceConfig, main: Ipv4Addr) -> (r: Result<(), String>)
    ensures
        match r {
            Ok(_) => device_error(id as int, dev@, main.0 as int) is None,
            Err(e) => device_error(id as int, dev@, main.0 as int) == Some(e@),
        },
{
    let mut at = owned("SCSI ID ");
    push_decimal(&mut at, id as u64);
    if id == 0 || id > 7 {
        at.append(" is out of range (1–7)");
        return Err(at);
    }
    // A CD-ROM drive may start with an empty tray, and any list of discs is a
    // changer queue: a disk or a drive has nothing to check here.
    if !dev.is_daynaport() {
        return Ok(());
    }
    if dev.cdrom || dev.overlay || dev.scratch {
        at.append(
            ": kind = \"daynaport\" has no disk image, so cdrom / overlay / scratch don't apply",
        );
        return Err(at);
    }
    match &dev.mac {
        Some(mac) => match parse_mac(mac.as_str()) {
            Ok(_) => {},
            Err(why) => {
                at.append(": mac: ");
                at.append(why.as_str());
                return Err(at);
            },
        },
        None => {},
    }
    match &dev.subnet {
        Some(cidr) => match parse_nat_subnet(cidr.as_str()) {
            Ok(_) => {},
            Err(why) => {
                at.append(": subnet \"");
                at.append(cidr.as_str());
                at.append("\": ");
                at.append(why.as_str());
                return Err(at);
            },
        },
        None => {},
    }
    // Each DaynaPort runs its own gateway. On the subnet of ec0 the guest would
    // have two interfaces on one network.
    let params = dev.daynaport_params(id);
    proof {
        assert(params is Ok);
    }
    let gateway = params.unwrap().subnet.gateway_ip;
    if gateway.0 == main.0 {
        at.append(": DaynaPort subnet ");
        gateway.push_dotted(&mut at);
        at.append(
            " collides with the machine's NAT subnet (ec0). Give the DaynaPort its own, e.g. subnet = \"192.168.10.0/24\".",
        );
        return Err(at);
    }
    Ok(())
}

// ---------------------------------------------------------------------------
// Laws
// ---------------------------------------------------------------------------

proof fn lemma_no_controller_error(
    devs: Map<u8, crate::config::DeviceView>,
    profile: MachineProfile,
    from: int,
    id: int,
)
    requires
        0 <= from <= id < 256,
        controllers_error(devs, profile, from) is None,
        devs.contains_key(id as u8),
    ensures
        controller_error(id, devs[id as u8].controller, profile) is None,
    decreases id - from,
{
    if from < id {
        lemma_no_controller_error(devs, profile, from + 1, id);
    }
}

proof fn lemma_no_device_error(
    devs: Map<u8, crate::config::DeviceView>,
    main: int,
    from: int,
    id: int,
)
    requires
        0 <= from <= id < 256,
        devices_error(devs, main, from) is None,
        devs.contains_key(id as u8),
    ensures
        device_error(id, devs[id as u8], main) is None,
    decreases id - from,
{
    if from < id {
        lemma_no_device_error(devs, main, from + 1, id);
    }
}

/// The network settings of an accepted configuration can be extracted, and every
/// device of it sits at an id from 1 to 7 on a controller that the machine has.
/// A DaynaPort of it has parameters, no disk options, and a gateway that is not
/// the one of `ec0`.
pub proof fn law_accepted_configurations_are_buildable(cfg: MachineConfig, id: u8)
    requires
        cfg.error() is None,
    ensures
        cfg.nat_error() is None,
        cfg.station_error() is None,
        devices(cfg.scsi@).contains_key(id) ==> {
            let dev = devices(cfg.scsi@)[id];
            &&& 1 <= id <= 7
            &&& dev.controller == 0 || (dev.controller == 1 && cfg.machine.profile
                == MachineProfile::Indigo2Ip22)
            &&& dev.kind() == ScsiKind::Daynaport ==> {
                &&& dev.params_error() is None
                &&& !dev.cdrom && !dev.overlay && !dev.scratch
                &&& dev.gateway() != main_gateway(crate::text::opt_text(cfg.nat_subnet))
            }
        },
{
    let devs = devices(cfg.scsi@);
    if devs.contains_key(id) {
        lemma_no_controller_error(devs, cfg.machine.profile, 0, id as int);
        lemma_no_device_error(
            devs,
            main_gateway(crate::text::opt_text(cfg.nat_subnet)),
            0,
            id as int,
        );
    }
}

/// Two DaynaPorts that configure no station address have different ones.
pub proof fn law_derived_stations_differ(
    a: crate::config::DeviceView,
    b: crate::config::DeviceView,
    id_a: u8,
    id_b: u8,
)
    requires
        a.mac is None,
        b.mac is None,
        id_a != id_b,
    ensures
        a.station(id_a) != b.station(id_b),
{
    assert(a.station(id_a)[5] == id_a);
    assert(b.station(id_b)[5] == id_b);
}

proof fn lemma_controllers_fit(
    devs: Map<u8, crate::config::DeviceView>,
    profile: MachineProfile,
    from: int,
)
    requires
        0 <= from <= 256,
        forall|id: u8|
            from <= id && #[trigger] devs.contains_key(id) ==> devs[id].controller == 0 || (
            devs[id].controller == 1 && profile == MachineProfile::Indigo2Ip22),
    ensures
        controllers_error(devs, profile, from) is None,
    decreases 256 - from,
{
    if from < 256 {
        lemma_controllers_fit(devs, profile, from + 1);
        assert(devs.contains_key(from as u8) ==> devs[from as u8].controller <= 1);
    }
}

proof fn lemma_devices_fit(devs: Map<u8, crate::config::DeviceView>, main: int, from: int)
    requires
        0 <= from <= 256,
        forall|id: u8|
            from <= id && #[trigger] devs.contains_key(id) ==> device_error(
                id as int,
                devs[id],
                main,
            ) is None,
    ensures
        devices_error(devs, main, from) is None,
    decreases 256 - from,
{
    if from < 256 {
        lemma_devices_fit(devs, main, from + 1);
        assert(devs.contains_key(from as u8) ==> device_error(from, devs[from as u8], main) is None);
    }
}

/// Which configurations are accepted, all conditions together: one head or two; XZ graphics
/// only on an Indy, with one head and the guest's resolution; IMPACT boards only on an Indigo2,
/// in slots that hardware can have populated; every device at an id from 1 to 7, on controller 0
/// or, on an Indigo2, 1; a DaynaPort without disk options, with a good address and a good subnet
/// that `ec0` is not on; a scale from 1 to 4; banks of 0, 8, 16, 32, 64 or 128 MB; a good subnet
/// and a good address of `ec0`; a frequency that is positive and finite; and a compile thread.
pub proof fn law_which_configurations_are_accepted(cfg: MachineConfig)
    ensures
        cfg.error() is None <==> {
            let devs = devices(cfg.scsi@);
            let i = cfg.impact;
            &&& cfg.graphics.heads == 1 || cfg.graphics.heads == 2
            &&& cfg.graphics.board == GraphicsBoard::Xz ==> {
                &&& cfg.machine.profile == MachineProfile::IndyIp24
                &&& cfg.graphics.heads == 1
                &&& cfg.graphics.resolution == crate::config::NewportResolution::Guest
            }
            &&& cfg.machine.profile != MachineProfile::Indigo2Ip22 ==> {
                &&& i.gfx == crate::config::ImpactSlot::Empty
                &&& i.exp0 == crate::config::ImpactSlot::Empty
                &&& i.exp1 == crate::config::ImpactSlot::Empty
            }
            &&& i.error() is None
            &&& forall|id: u8| #[trigger]
                devs.contains_key(id) ==> {
                    let dev = devs[id];
                    &&& 1 <= id <= 7
                    &&& dev.controller == 0 || (dev.controller == 1 && cfg.machine.profile
                        == MachineProfile::Indigo2Ip22)
                    &&& dev.kind_field == ScsiKind::Daynaport ==> {
                        &&& !dev.cdrom && !dev.overlay && !dev.scratch
                        &&& dev.mac matches Some(m) ==> crate::net_addr::mac_error(m) is None
                        &&& dev.subnet matches Some(c) ==> crate::net_addr::subnet_error(c) is None
                        &&& dev.gateway() != match cfg.nat_subnet {
                            Some(c) => crate::net_addr::subnet_base(c@) + 1,
                            None => 0xC0A8_0001int,
                        }
                    }
                }
            &&& 1 <= cfg.scale <= 4
            &&& forall|b: int|
                0 <= b < 4 ==> #[trigger] cfg.banks@[b] == 0 || cfg.banks@[b] == 8 || cfg.banks@[b]
                    == 16 || cfg.banks@[b] == 32 || cfg.banks@[b] == 64 || cfg.banks@[b] == 128
            &&& cfg.nat_subnet matches Some(c) ==> crate::net_addr::subnet_error(c@) is None
            &&& cfg.network.mac matches Some(m) ==> crate::net_addr::mac_error(m@) is None
            &&& cfg.clock.fixed_mhz matches Some(f) ==> 0 < f.bits <= 0x7FEF_FFFF_FFFF_FFFF
            &&& cfg.jitv2.threads >= 1
        },
{
    let devs = devices(cfg.scsi@);
    let main = main_gateway(crate::text::opt_text(cfg.nat_subnet));
    lemma_banks(cfg.banks@, 0);
    assert(main == match cfg.nat_subnet {
        Some(c) => crate::net_addr::subnet_base(c@) + 1,
        None => 0xC0A8_0001int,
    });
    if cfg.error() is None {
        assert forall|id: u8| #[trigger] devs.contains_key(id) implies device_error(
            id as int,
            devs[id],
            main,
        ) is None && controller_error(
            id as int,
            devs[id].controller,
            cfg.machine.profile,
        ) is None by {
            lemma_no_controller_error(devs, cfg.machine.profile, 0, id as int);
            lemma_no_device_error(devs, main, 0, id as int);
        }
    } else if forall|id: u8| #[trigger]
        devs.contains_key(id) ==> device_error(id as int, devs[id], main) is None && (
        devs[id].controller == 0 || (devs[id].controller == 1 && cfg.machine.profile
            == MachineProfile::Indigo2Ip22)) {
        lemma_controllers_fit(devs, cfg.machine.profile, 0);
        lemma_devices_fit(devs, main, 0);
    }
}

proof fn lemma_banks(banks: Seq<u32>, from: int)
    requires
        0 <= from <= banks.len(),
    ensures
        banks_error(banks, from) is None <==> forall|b: int|
            from <= b < banks.len() ==> #[trigger] banks[b] == 0 || banks[b] == 8 || banks[b] == 16
                || banks[b] == 32 || banks[b] == 64 || banks[b] == 128,
    decreases banks.len() - from,
{
    if from < banks.len() {
        lemma_banks(banks, from + 1);
        if banks_error(banks, from) is None {
            assert forall|b: int| from <= b < banks.len() implies #[trigger] banks[b] == 0
                || banks[b] == 8 || banks[b] == 16 || banks[b] == 32 || banks[b] == 64 || banks[b]
                == 128 by {}
        }
    }
}

/// The devices that no configuration names: a hard disk at id 1 and a CD-ROM drive at id 4,
/// both on controller 0 and neither with an overlay; no other id is taken.
pub proof fn law_default_devices(id: u8)
    ensures
        default_devices().contains_key(id) <==> id == 1 || id == 4,
        default_devices()[1].kind() == ScsiKind::Disk,
        default_devices()[4].kind() == ScsiKind::Cdrom,
        default_devices()[1].path == "scsi1.raw"@,
        default_devices()[4].path == "cdrom4.iso"@,
        id == 1 || id == 4 ==> {
            let d = default_devices()[id];
            &&& !d.overlay && !d.scratch && d.size_mb is None && d.controller == 0
            &&& d.discs.len() == 0 && d.mac is None && d.subnet is None
        },
{
}

/// A control socket is a TCP address if it starts with `tcp:`, whatever follows; a path never
/// is; a host and a port behind a colon are, exactly if the port is a number that a port can be;
/// a text without a colon is not.
pub proof fn law_which_sockets_are_tcp(host: Seq<char>, port: nat, rest: Seq<char>)
    requires
        host.len() > 0,
        !crate::text::is_white_space(host[0]),
        host[0] != '/' && host[0] != '\\',
        rest.len() > 0 ==> !crate::text::is_white_space(rest.last()),
    ensures
        names_tcp("tcp:"@ + rest),
        !names_tcp(seq!['/'] + rest),
        !names_tcp(seq!['\\'] + rest),
        !crate::text::begins_with(host, "tcp:"@) ==> (names_tcp(
            host + seq![':'] + crate::text::decimal(port),
        ) <==> port <= 65_535 || crate::text::begins_with(host + seq![':'], "tcp:"@)),
        !crate::text::is_white_space(host.last()) && (forall|i: int|
            0 <= i < host.len() ==> #[trigger] host[i] != ':') ==> !names_tcp(host),
{
    reveal_strlit("tcp:");
    let a = "tcp:"@ + rest;
    assert(a.last() == if rest.len() > 0 {
        rest.last()
    } else {
        ':'
    });
    crate::text::law_trimmed_texts_stay(a);
    assert(a.take(4) =~= "tcp:"@);
    let b = seq!['/'] + rest;
    assert(b.last() == if rest.len() > 0 {
        rest.last()
    } else {
        '/'
    });
    crate::text::law_trimmed_texts_stay(b);
    assert(b[0] == '/');
    if crate::text::begins_with(b, "tcp:"@) {
        assert(b.take(4)[0] == "tcp:"@[0]);
    }
    let c = seq!['\\'] + rest;
    assert(c.last() == if rest.len() > 0 {
        rest.last()
    } else {
        '\\'
    });
    crate::text::law_trimmed_texts_stay(c);
    assert(c[0] == '\\');
    if crate::text::begins_with(c, "tcp:"@) {
        assert(c.take(4)[0] == "tcp:"@[0]);
    }
    if !crate::text::begins_with(host, "tcp:"@) {
        let digits = crate::text::decimal(port);
        let s = host + seq![':'] + digits;
        let at = host.len() as int;
        crate::text::lemma_decimal_digits(port);
        crate::text::law_decimal_digits(port);
        assert(s[0] == host[0]);
        assert(s.last() == digits.last());
        crate::text::law_trimmed_texts_stay(s);
        crate::text::law_last_place(s, ':', s.len() as int);
        assert(s[at] == ':');
        assert forall|k: int| at < k < s.len() implies #[trigger] s[k] != ':' by {
            assert(s[k] == digits[k - at - 1]);
            assert(crate::text::digit_value(digits[k - at - 1], 10) is Some);
        }
        assert(crate::text::last_before(s, ':', s.len() as int) == Some(at));
        assert(s.skip(at + 1) =~= digits);
        if port <= 65_535 {
            crate::text::law_decimal_round_trip(port, 65_535);
        } else {
            assert(digits[0] != '+');
            assert(crate::text::parsed(digits, 10, 65_535) is None);
        }
        let front = host + seq![':'];
        assert(front =~= s.take(at + 1));
        if crate::text::begins_with(s, "tcp:"@) {
            if at < 3 {
                assert(s.take(4)[at] == "tcp:"@[at]);
            } else if at == 3 {
                assert(front.take(4) =~= s.take(4));
            } else {
                assert(host.take(4) =~= s.take(4));
            }
        } else if crate::text::begins_with(front, "tcp:"@) {
            assert(front.take(4) =~= s.take(4));
        }
    }
    if !crate::text::is_white_space(host.last()) && (forall|i: int|
        0 <= i < host.len() ==> #[trigger] host[i] != ':') {
        crate::text::law_trimmed_texts_stay(host);
        crate::text::law_last_place(host, ':', host.len() as int);
        if crate::text::begins_with(host, "tcp:"@) {
            assert(host.take(4)[3] == "tcp:"@[3]);
        }
    }
}

/// The station address of `ec0` where none is configured is 08:00:69:12:34:56, and its subnet
/// there is that of the gateway 192.168.0.1.
pub proof fn law_default_network()
    ensures
        DEFAULT_MAC@ == seq![0x08u8, 0x00, 0x69, 0x12, 0x34, 0x56],
        main_gateway(None) == 0xC0A8_0001,
        forall|c: Seq<char>| #[trigger]
            main_gateway(Some(c)) == crate::net_addr::subnet_base(c) + 1,
{
    assert(DEFAULT_MAC@ =~= seq![0x08u8, 0x00, 0x69, 0x12, 0x34, 0x56]);
}

/// One finding is reported, and an earlier one hides a later one: graphics, IMPACT boards,
/// controllers, scale, banks, subnet, station address, devices, frequency, compile threads.
pub proof fn law_the_first_finding_counts(cfg: MachineConfig)
    ensures
        ({
            let devs = devices(cfg.scsi@);
            let controllers = controllers_error(devs, cfg.machine.profile, 0);
            let banks = banks_error(cfg.banks@, 0);
            let targets = devices_error(
                devs,
                main_gateway(crate::text::opt_text(cfg.nat_subnet)),
                0,
            );
            let before_scale = cfg.graphics_error() is None && cfg.impact_error() is None
                && controllers is None;
            let before_station = before_scale && cfg.scale_error() is None && banks is None
                && cfg.nat_error() is None;
            let before_clock = before_station && cfg.station_error() is None && targets is None;
            &&& cfg.graphics_error() is Some ==> cfg.error() == cfg.graphics_error()
            &&& cfg.graphics_error() is None && cfg.impact_error() is Some ==> cfg.error()
                == cfg.impact_error()
            &&& cfg.graphics_error() is None && cfg.impact_error() is None && controllers is Some
                ==> cfg.error() == controllers
            &&& before_scale && cfg.scale_error() is Some ==> cfg.error() == cfg.scale_error()
            &&& before_scale && cfg.scale_error() is None && banks is Some ==> cfg.error() == banks
            &&& before_scale && cfg.scale_error() is None && banks is None && cfg.nat_error() is Some
                ==> cfg.error() == cfg.nat_error()
            &&& before_station && cfg.station_error() is Some ==> cfg.error()
                == cfg.station_error()
            &&& before_station && cfg.station_error() is None && targets is Some ==> cfg.error()
                == targets
            &&& before_clock && cfg.clock_error() is Some ==> cfg.error() == cfg.clock_error()
            &&& before_clock && cfg.clock_error() is None ==> cfg.error() == cfg.pool_error()
        }),
{
}

/// What is said of a device names its id, and of a controller its id and its number.
pub proof fn law_findings_name_the_device(
    id: int,
    dev: crate::config::DeviceView,
    main: int,
    controller: u8,
    profile: MachineProfile,
)
    ensures
        device_error(id, dev, main) matches Some(e) ==> crate::text::begins_with(
            e,
            "SCSI ID "@ + crate::text::decimal(id as nat),
        ),
        controller_error(id, controller, profile) matches Some(e) ==> crate::text::begins_with(
            e,
            "scsi."@ + crate::text::decimal(id as nat) + ": controller "@ + crate::text::decimal(
                controller as nat,
            ),
        ),
{
    let at = "SCSI ID "@ + crate::text::decimal(id as nat);
    if device_error(id, dev, main) is Some {
        let e = device_error(id, dev, main)->0;
        assert(e.len() >= at.len());
        assert(e.take(at.len() as int) =~= at);
    }
    let c = "scsi."@ + crate::text::decimal(id as nat) + ": controller "@ + crate::text::decimal(
        controller as nat,
    );
    if controller_error(id, controller, profile) is Some {
        let e = controller_error(id, controller, profile)->0;
        assert(e.take(c.len() as int) =~= c);
    }
}

/// Of several devices that are wrong, the one with the lowest id is spoken of.
pub proof fn law_the_lowest_id_is_reported(
    devs: Map<u8, crate::config::DeviceView>,
    main: int,
    profile: MachineProfile,
    id: u8,
)
    requires
        devs.contains_key(id),
    ensures
        device_error(id as int, devs[id], main) is Some && (forall|k: u8|
            k < id && #[trigger] devs.contains_key(k) ==> device_error(
                k as int,
                devs[k],
                main,
            ) is None) ==> devices_error(devs, main, 0) == device_error(id as int, devs[id], main),
        controller_error(id as int, devs[id].controller, profile) is Some && (forall|k: u8|
            k < id && #[trigger] devs.contains_key(k) ==> controller_error(
                k as int,
                devs[k].controller,
                profile,
            ) is None) ==> controllers_error(devs, profile, 0) == controller_error(
            id as int,
            devs[id].controller,
            profile,
        ),
{
    if device_error(id as int, devs[id], main) is Some && (forall|k: u8|
        k < id && #[trigger] devs.contains_key(k) ==> device_error(k as int, devs[k], main) is None) {
        lemma_lowest_device(devs, main, 0, id);
    }
    if controller_error(id as int, devs[id].controller, profile) is Some && (forall|k: u8|
        k < id && #[trigger] devs.contains_key(k) ==> controller_error(
            k as int,
            devs[k].controller,
            profile,
        ) is None) {
        lemma_lowest_controller(devs, profile, 0, id);
    }
}

proof fn lemma_lowest_device(
    devs: Map<u8, crate::config::DeviceView>,
    main: int,
    from: int,
    id: u8,
)
    requires
        0 <= from <= id,
        devs.contains_key(id),
        device_error(id as int, devs[id], main) is Some,
        forall|k: u8|
            k < id && #[trigger] devs.contains_key(k) ==> device_error(
                k as int,
                devs[k],
                main,
            ) is None,
    ensures
        devices_error(devs, main, from) == device_error(id as int, devs[id], main),
    decreases id - from,
{
    if from < id {
        lemma_lowest_device(devs, main, from + 1, id);
        assert(devs.contains_key(from as u8) ==> device_error(from, devs[from as u8], main) is None);
    }
}

proof fn lemma_lowest_controller(
    devs: Map<u8, crate::config::DeviceView>,
    profile: MachineProfile,
    from: int,
    id: u8,
)
    requires
        0 <= from <= id,
        devs.contains_key(id),
        controller_error(id as int, devs[id].controller, profile) is Some,
        forall|k: u8|
            k < id && #[trigger] devs.contains_key(k) ==> controller_error(
                k as int,
                devs[k].controller,
                profile,
            ) is None,
    ensures
        controllers_error(devs, profile, from) == controller_error(
            id as int,
            devs[id].controller,
            profile,
        ),
    decreases id - from,
{
    if from < id {
        lemma_lowest_controller(devs, profile, from + 1, id);
        assert(devs.contains_key(from as u8) ==> controller_error(
            from,
            devs[from as u8].controller,
            profile,
        ) is None);
    }
}

/// A machine with the default devices, banks and boards can be built.
proof fn lemma_defaults_are_accepted(cfg: MachineConfig)
    requires
        cfg.banks@ == seq![128u32, 128u32, 0u32, 0u32],
        cfg.scale == 1,
        cfg.nat_subnet is None,
        devices(cfg.scsi@) == default_devices(),
        cfg.network.mac is None,
        cfg.graphics.board == GraphicsBoard::Newport,
        cfg.graphics.heads == 1,
        !cfg.impact.populated(),
        cfg.jitv2.threads == 1,
        cfg.clock.fixed_mhz is None,
    ensures
        cfg.error() is None,
{
    law_which_configurations_are_accepted(cfg);
    let devs = devices(cfg.scsi@);
    assert forall|id: u8| #[trigger] devs.contains_key(id) implies (id == 1 || id == 4)
        && devs[id].controller == 0 && devs[id].kind_field == ScsiKind::Disk by {
        law_default_devices(id);
    }
    assert(cfg.banks@[0] == 128 && cfg.banks@[1] == 128);
    assert(cfg.banks@[2] == 0 && cfg.banks@[3] == 0);
}

/// A host and what stands behind its last colon name a TCP address exactly if that is a number
/// that a port can be, however it is written, unless the prefix says so anyway.
pub proof fn law_ports_of_sockets(host: Seq<char>, port: Seq<char>)
    requires
        host.len() > 0,
        !crate::text::is_white_space(host[0]),
        host[0] != '/' && host[0] != '\\',
        port.len() > 0,
        !crate::text::is_white_space(port.last()),
        forall|i: int| 0 <= i < port.len() ==> #[trigger] port[i] != ':',
        !crate::text::begins_with(host + seq![':'] + port, "tcp:"@),
    ensures
        names_tcp(host + seq![':'] + port) <==> crate::text::parsed(port, 10, 65_535) is Some,
{
    let s = host + seq![':'] + port;
    let at = host.len() as int;
    assert(s[0] == host[0]);
    assert(s.last() == port.last());
    crate::text::law_trimmed_texts_stay(s);
    crate::text::law_last_place(s, ':', s.len() as int);
    assert(s[at] == ':');
    assert forall|k: int| at < k < s.len() implies #[trigger] s[k] != ':' by {
        assert(s[k] == port[k - at - 1]);
    }
    assert(crate::text::last_before(s, ':', s.len() as int) == Some(at));
    assert(s.skip(at + 1) =~= port);
}

/// White space round a control socket address does not matter.
pub proof fn law_white_space_round_a_socket(front: Seq<char>, addr: Seq<char>, back: Seq<char>)
    requires
        forall|i: int| 0 <= i < front.len() ==> crate::text::is_white_space(#[trigger] front[i]),
        forall|i: int| 0 <= i < back.len() ==> crate::text::is_white_space(#[trigger] back[i]),
        addr.len() > 0 ==> !crate::text::is_white_space(addr[0]) && !crate::text::is_white_space(
            addr.last(),
        ),
    ensures
        names_tcp(front + addr + back) == names_tcp(addr),
        tcp_addr(front + addr + back) == tcp_addr(addr),
        !names_tcp(front + back),
{
    crate::text::law_trimming(front, addr, back);
    crate::text::law_trimmed_texts_stay(addr);
    crate::text::law_trimming(front, seq![], back);
    assert(front + Seq::<char>::empty() + back =~= front + back);
    reveal_strlit("tcp:");
}

} // verus!
