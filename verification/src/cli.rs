//! Command line overrides: every option that is present replaces what the
//! configuration file says.
use std::collections::HashMap;
use vstd::prelude::*;
use crate::config::ClockConfig;
use crate::config::CpuModel;
use crate::config::Jitv2Config;
use crate::config::MachineProfile;
use crate::config::MachineSection;
use crate::config::NetMode;
use crate::config::NetworkSection;
use crate::config::NfsConfig;
use crate::config::NfsVersion;
use crate::config::Real;
use crate::config::ScsiDeviceConfig;
use crate::machine_config::MachineConfig;
use crate::text::chars_of;
use crate::text::contains_chars;
use crate::text::copy_texts;
use crate::text::same_text;

verus! {

/// Configuration file that is read when none is named.
pub const DEFAULT_CONFIG: &'static str = "iris.toml";

/// The options of the command line.
#[derive(Debug)]
pub struct Cli {
    /// Path to the configuration file.
    pub config: String,
    /// Path to the PROM image.
    pub prom: Option<String>,
    /// Emulate an Indigo2 instead of an Indy.
    pub ip22: bool,
    /// Path to the NVRAM file.
    pub nvram: Option<String>,
    /// Path to the motherboard EEPROM file.
    pub nveeprom: Option<String>,
    pub bank0: Option<u32>,
    pub bank1: Option<u32>,
    pub bank2: Option<u32>,
    pub bank3: Option<u32>,
    /// Compile-pool thread count.
    pub jitv2_threads: Option<usize>,
    pub scsi1: Option<String>,
    pub scsi2: Option<String>,
    pub scsi3: Option<String>,
    pub cdrom4: Option<String>,
    pub cdrom5: Option<String>,
    pub cdrom6: Option<String>,
    pub scsi7: Option<String>,
    pub cdrom4_extra: Vec<String>,
    pub cdrom5_extra: Vec<String>,
    pub cdrom6_extra: Vec<String>,
    /// Double window scaling.
    pub scale2x: bool,
    pub headless: bool,
    pub no_audio: bool,
    /// Directory to export over NFS.
    pub nfs_dir: Option<String>,
    pub nat_subnet: Option<String>,
    pub net_mode: Option<NetMode>,
    /// Host interface to bridge onto. Implies the bridged mode.
    pub pcap_interface: Option<String>,
    /// List the interfaces that can be bridged onto, and exit.
    pub list_net_interfaces: bool,
    pub no_scsi_deferred_int: bool,
    pub cpu: Option<CpuModel>,
    pub gdb_port: Option<u16>,
    pub test_device: bool,
    pub test_device_dump: Option<String>,
    pub cheritest_dump_hook: bool,
    pub tftp_dir: Option<String>,
    pub load_elf: Option<String>,
    pub ci: bool,
    pub ci_socket: Option<String>,
    pub ci_display: bool,
    pub serial_log: Option<String>,
    pub clock_fixed_mhz: Option<Real>,
}

/// The text of an option that is present, else `base`.
pub open spec fn text_or(o: Option<String>, base: Seq<char>) -> Seq<char> {
    match o {
        Some(s) => s@,
        None => base,
    }
}

/// The text of an option that is present, else the text of the other option.
pub open spec fn text_or_opt(o: Option<String>, base: Option<String>) -> Option<Seq<char>> {
    match o {
        Some(s) => Some(s@),
        None => crate::text::opt_text(base),
    }
}

/// The value of an option that is present, else `base`.
pub open spec fn value_or<T>(o: Option<T>, base: T) -> T {
    match o {
        Some(v) => v,
        None => base,
    }
}

/// The devices once one of them is given an image: the path and the kind of drive
/// are replaced, the list of discs only by one that is not empty, and all else of
/// a device that was there stays.
pub open spec fn with_image(
    devs: Map<u8, crate::config::DeviceView>,
    id: u8,
    path: Option<String>,
    cdrom: bool,
    extra: Seq<Seq<char>>,
) -> Map<u8, crate::config::DeviceView> {
    match path {
        None => devs,
        Some(p) => {
            let base = if devs.contains_key(id) {
                devs[id]
            } else {
                crate::config::DeviceView::blank()
            };
            devs.insert(
                id,
                crate::config::DeviceView {
                    path: p@,
                    cdrom,
                    discs: if extra.len() > 0 { extra } else { base.discs },
                    ..base
                },
            )
        },
    }
}

fn set_image(
    map: &mut HashMap<u8, ScsiDeviceConfig>,
    id: u8,
    path: &Option<String>,
    cdrom: bool,
    extra: &Vec<String>,
)
    ensures
        crate::machine_config::devices(final(map)@) == with_image(
            crate::machine_config::devices(old(map)@),
            id,
            *path,
            cdrom,
            crate::text::texts(extra@),
        ),
{
    let ghost before = map@;
    match path {
        None => {},
        Some(p) => {
            let mut entry = match map.remove(&id) {
                Some(entry) => entry,
                None => ScsiDeviceConfig::default(),
            };
            entry.path = p.clone();
            entry.cdrom = cdrom;
            if extra.len() > 0 {
                entry.discs = copy_texts(extra);
            }
            let ghost e = entry;
            map.insert(id, entry);
            proof {
                assert(map@ =~= before.insert(id, e));
                assert(crate::machine_config::devices(map@)
                    =~= crate::machine_config::devices(before).insert(id, e@));
                let want = with_image(
                    crate::machine_config::devices(before),
                    id,
                    *path,
                    cdrom,
                    crate::text::texts(extra@),
                );
                assert(crate::machine_config::devices(map@) =~= want);
            }
        },
    }
}

impl Cli {
    /// The devices of a configuration, with the images that the command line
    /// names.
    #[verifier::opaque]
    pub open spec fn devices_over(
        self,
        devs: Map<u8, crate::config::DeviceView>,
    ) -> Map<u8, crate::config::DeviceView> {
        let d1 = with_image(devs, 1, self.scsi1, false, seq![]);
        let d2 = with_image(d1, 2, self.scsi2, false, seq![]);
        let d3 = with_image(d2, 3, self.scsi3, false, seq![]);
        let d4 = with_image(
            d3,
            4,
            self.cdrom4,
            true,
            crate::text::texts(self.cdrom4_extra@),
        );
        let d5 = with_image(
            d4,
            5,
            self.cdrom5,
            true,
            crate::text::texts(self.cdrom5_extra@),
        );
        let d6 = with_image(
            d5,
            6,
            self.cdrom6,
            true,
            crate::text::texts(self.cdrom6_extra@),
        );
        with_image(d6, 7, self.scsi7, false, seq![])
    }

    /// The backend that the command line asks for: an explicit mode, or the
    /// bridged one where an interface is named.
    pub open spec fn mode_over(self, base: NetMode) -> NetMode {
        match self.net_mode {
            Some(m) => m,
            None => if self.pcap_interface is Some {
                NetMode::Pcap
            } else {
                base
            },
        }
    }

    /// The NFS share: a directory on the command line replaces the exported
    /// directory and keeps the version.
    pub open spec fn nfs_over(self, base: Option<NfsConfig>) -> Option<(Seq<char>, NfsVersion)> {
        match self.nfs_dir {
            Some(dir) => Some(
                (
                    dir@,
                    match base {
                        Some(n) => n.version,
                        None => NfsVersion::Auto,
                    },
                ),
            ),
            None => crate::config::nfs_view(base),
        }
    }

    /// `r` is `base` with the options of the command line over it.
    pub open spec fn overrides(self, base: MachineConfig, r: MachineConfig) -> bool {
        &&& r.prom@ == text_or(self.prom, base.prom@)
        &&& r.nvram@ == text_or(self.nvram, base.nvram@)
        &&& r.nveeprom@ == text_or(self.nveeprom, base.nveeprom@)
        &&& r.banks@ == seq![
            value_or(self.bank0, base.banks@[0]),
            value_or(self.bank1, base.banks@[1]),
            value_or(self.bank2, base.banks@[2]),
            value_or(self.bank3, base.banks@[3]),
        ]
        &&& r.scale == if self.scale2x { 2 } else { base.scale }
        &&& r.headless == (self.headless || base.headless || (r.ci && !r.ci_display))
        &&& r.no_audio == (self.no_audio || base.no_audio)
        &&& r.gdb_port == if self.gdb_port is Some { self.gdb_port } else { base.gdb_port }
        &&& crate::text::opt_text(r.load_elf) == text_or_opt(self.load_elf, base.load_elf)
        &&& r.test_device == (self.test_device || base.test_device)
        &&& crate::text::opt_text(r.test_device_dump) == text_or_opt(
            self.test_device_dump,
            base.test_device_dump,
        )
        &&& r.cheritest_dump_hook == (self.cheritest_dump_hook || base.cheritest_dump_hook)
        &&& crate::text::opt_text(r.nat_subnet) == text_or_opt(self.nat_subnet, base.nat_subnet)
        &&& r.ci == (self.ci || base.ci)
        &&& r.ci_socket@ == text_or(self.ci_socket, base.ci_socket@)
        &&& r.ci_display == (self.ci_display || base.ci_display)
        &&& crate::text::opt_text(r.serial_log) == text_or_opt(self.serial_log, base.serial_log)
        &&& crate::machine_config::devices(r.scsi@) == self.devices_over(
            crate::machine_config::devices(base.scsi@),
        )
        &&& crate::config::nfs_view(r.nfs) == self.nfs_over(base.nfs)
        &&& r.network.mode == self.mode_over(base.network.mode)
        &&& crate::text::opt_text(r.network.pcap_interface) == text_or_opt(
            self.pcap_interface,
            base.network.pcap_interface,
        )
        &&& crate::text::opt_text(r.network.tftp_dir) == text_or_opt(
            self.tftp_dir,
            base.network.tftp_dir,
        )
        &&& r.network.nfs_pcap_ip == base.network.nfs_pcap_ip
        &&& r.network.mac == base.network.mac
        &&& r.scsi_deferred_int == (!self.no_scsi_deferred_int && base.scsi_deferred_int)
        &&& r.machine.profile == if self.ip22 {
            MachineProfile::Indigo2Ip22
        } else {
            base.machine.profile
        }
        &&& r.machine.cpu == value_or(self.cpu, base.machine.cpu)
        &&& r.jitv2.threads == value_or(self.jitv2_threads, base.jitv2.threads)
        &&& match self.clock_fixed_mhz {
            Some(mhz) => r.clock.fixed_mhz matches Some(got) && got.bits == mhz.bits && got.text@
                == mhz.text@,
            None => r.clock == base.clock,
        }
        &&& r.mouse_scroll_pixels_per_line == base.mouse_scroll_pixels_per_line
        &&& r.lock_aspect_ratio == base.lock_aspect_ratio
        &&& r.port_forward == base.port_forward
        &&& r.vino == base.vino
        &&& r.audio == base.audio
        &&& r.graphics == base.graphics
        &&& r.impact == base.impact
        &&& r.debug == base.debug
        &&& r.perf == base.perf
        &&& r.rtc_offset == base.rtc_offset
        &&& r.ultra64 == base.ultra64
    }

    fn apply_devices(&self, map: &mut HashMap<u8, ScsiDeviceConfig>)
        ensures
            crate::machine_config::devices(final(map)@) == self.devices_over(
                crate::machine_config::devices(old(map)@),
            ),
    {
        let none: Vec<String> = Vec::new();
        proof {
            reveal(Cli::devices_over);
            assert(crate::text::texts(none@) =~= seq![]);
        }
        set_image(map, 1, &self.scsi1, false, &none);
        set_image(map, 2, &self.scsi2, false, &none);
        set_image(map, 3, &self.scsi3, false, &none);
        set_image(map, 4, &self.cdrom4, true, &self.cdrom4_extra);
        set_image(map, 5, &self.cdrom5, true, &self.cdrom5_extra);
        set_image(map, 6, &self.cdrom6, true, &self.cdrom6_extra);
        set_image(map, 7, &self.scsi7, false, &none);
    }

    fn banks_of(&self, banks: [u32; 4]) -> (r: [u32; 4])
        ensures
            r@ == seq![
                value_or(self.bank0, banks@[0]),
                value_or(self.bank1, banks@[1]),
                value_or(self.bank2, banks@[2]),
                value_or(self.bank3, banks@[3]),
            ],
    {
        let b0: u32 = match self.bank0 {
            Some(v) => v,
            None => banks[0],
        };
        let b1: u32 = match self.bank1 {
            Some(v) => v,
            None => banks[1],
        };
        let b2: u32 = match self.bank2 {
            Some(v) => v,
            None => banks[2],
        };
        let b3: u32 = match self.bank3 {
            Some(v) => v,
            None => banks[3],
        };
        let r: [u32; 4] = [b0, b1, b2, b3];
        proof {
            assert(r@ =~= seq![b0, b1, b2, b3]);
        }
        r
    }

    fn nfs_of(&self, nfs: Option<NfsConfig>) -> (r: Option<NfsConfig>)
        ensures
            crate::config::nfs_view(r) == self.nfs_over(nfs),
    {
        match &self.nfs_dir {
            Some(dir) => {
                let version = match &nfs {
                    Some(n) => n.version,
                    None => NfsVersion::Auto,
                };
                Some(NfsConfig { shared_dir: dir.clone(), version })
            },
            None => nfs,
        }
    }

    fn network_of(&self, base: NetworkSection) -> (r: NetworkSection)
        ensures
            r.mode == self.mode_over(base.mode),
            crate::text::opt_text(r.pcap_interface) == text_or_opt(
                self.pcap_interface,
                base.pcap_interface,
            ),
            crate::text::opt_text(r.tftp_dir) == text_or_opt(self.tftp_dir, base.tftp_dir),
            r.nfs_pcap_ip == base.nfs_pcap_ip,
            r.mac == base.mac,
    {
        let mode = match self.net_mode {
            Some(m) => m,
            None => if self.pcap_interface.is_some() {
                NetMode::Pcap
            } else {
                base.mode
            },
        };
        NetworkSection {
            mode,
            pcap_interface: pick_opt(&self.pcap_interface, base.pcap_interface),
            tftp_dir: pick_opt(&self.tftp_dir, base.tftp_dir),
            nfs_pcap_ip: base.nfs_pcap_ip,
            mac: base.mac,
        }
    }

    /// Merges the command line into a base configuration.
    pub fn apply(&self, cfg: MachineConfig) -> (r: MachineConfig)
        ensures
            self.overrides(cfg, r),
    {
        let mut scsi = cfg.scsi;
        self.apply_devices(&mut scsi);
        let clock = match &self.clock_fixed_mhz {
            Some(mhz) => ClockConfig { fixed_mhz: Some(mhz.copy()) },
            None => cfg.clock,
        };
        MachineConfig {
            prom: pick(&self.prom, cfg.prom),
            nvram: pick(&self.nvram, cfg.nvram),
            nveeprom: pick(&self.nveeprom, cfg.nveeprom),
            banks: self.banks_of(cfg.banks),
            scale: if self.scale2x { 2 } else { cfg.scale },
            // A control socket implies headless, unless the display is asked for.
            headless: self.headless || cfg.headless || ((self.ci || cfg.ci) && !(self.ci_display
                || cfg.ci_display)),
            no_audio: self.no_audio || cfg.no_audio,
            gdb_port: if self.gdb_port.is_some() { self.gdb_port } else { cfg.gdb_port },
            load_elf: pick_opt(&self.load_elf, cfg.load_elf),
            test_device: self.test_device || cfg.test_device,
            test_device_dump: pick_opt(&self.test_device_dump, cfg.test_device_dump),
            cheritest_dump_hook: self.cheritest_dump_hook || cfg.cheritest_dump_hook,
            nat_subnet: pick_opt(&self.nat_subnet, cfg.nat_subnet),
            ci: self.ci || cfg.ci,
            ci_socket: pick(&self.ci_socket, cfg.ci_socket),
            ci_display: self.ci_display || cfg.ci_display,
            mouse_scroll_pixels_per_line: cfg.mouse_scroll_pixels_per_line,
            lock_aspect_ratio: cfg.lock_aspect_ratio,
            serial_log: pick_opt(&self.serial_log, cfg.serial_log),
            scsi,
            nfs: self.nfs_of(cfg.nfs),
            port_forward: cfg.port_forward,
            vino: cfg.vino,
            network: self.network_of(cfg.network),
            scsi_deferred_int: !self.no_scsi_deferred_int && cfg.scsi_deferred_int,
            audio: cfg.audio,
            machine: MachineSection {
                profile: if self.ip22 {
                    MachineProfile::Indigo2Ip22
                } else {
                    cfg.machine.profile
                },
                cpu: match self.cpu {
                    Some(cpu) => cpu,
                    None => cfg.machine.cpu,
                },
            },
            graphics: cfg.graphics,
            impact: cfg.impact,
            debug: cfg.debug,
            jitv2: Jitv2Config {
                threads: match self.jitv2_threads {
                    Some(n) => n,
                    None => cfg.jitv2.threads,
                },
            },
            perf: cfg.perf,
            clock,
            rtc_offset: cfg.rtc_offset,
            ultra64: cfg.ultra64,
        }
    }
}

fn pick(o: &Option<String>, base: String) -> (r: String)
    ensures
        r@ == text_or(*o, base@),
{
    match o {
        Some(s) => s.clone(),
        None => base,
    }
}

fn pick_opt(o: &Option<String>, base: Option<String>) -> (r: Option<String>)
    ensures
        crate::text::opt_text(r) == text_or_opt(*o, base),
{
    match o {
        Some(s) => Some(s.clone()),
        None => base,
    }
}

/// The command line over the configuration that was read, and the window scale of
/// the result; the error says what is wrong with the result.
pub fn resolve_config(cli: &Cli, base: MachineConfig) -> (r: Result<(MachineConfig, u32), String>)
    ensures
        match r {
            Ok((cfg, scale)) => {
                &&& cli.overrides(base, cfg)
                &&& cfg.error() is None
                &&& scale == cfg.scale
            },
            Err(e) => exists|cfg: MachineConfig|
                cli.overrides(base, cfg) && #[trigger] cfg.error() == Some(e@),
        },
{
    let cfg = cli.apply(base);
    match cfg.validate() {
        Ok(_) => {
            let scale: u32 = cfg.scale;
            Ok((cfg, scale))
        },
        Err(e) => Err(e),
    }
}

/// A missing configuration file is fatal where it was named: the default one may
/// be missing, and defaults are used.
pub fn missing_config_is_fatal(config: &str, exists: bool) -> (r: bool)
    ensures
        r == (config@ != DEFAULT_CONFIG@ && !exists),
{
    !same_text(config, DEFAULT_CONFIG) && !exists
}

/// Whether a configuration that does not parse may have tripped over backslashes:
/// it names a Windows capture device, or the error speaks of an escape.
pub fn wants_backslash_hint(text: &str, error: &str) -> (r: bool)
    ensures
        r == (crate::text::has_substring(text@, "\\Device\\NPF"@) || crate::text::has_substring(
            error@,
            "escape"@,
        )),
{
    contains_chars(&chars_of(text), &chars_of("\\Device\\NPF")) || contains_chars(
        &chars_of(error),
        &chars_of("escape"),
    )
}

/// The SCSI id that a key of the configuration file writes.
pub fn parse_scsi_id(key: &str) -> (r: Option<u8>)
    ensures
        match r {
            Some(id) => crate::text::parsed(key@, 10, 255) == Some(id as nat),
            None => crate::text::parsed(key@, 10, 255) is None,
        },
{
    match crate::text::parse_number(&chars_of(key), 10, 255) {
        Some(v) => Some(v as u8),
        None => None,
    }
}

// ---------------------------------------------------------------------------
// Laws
// ---------------------------------------------------------------------------

/// No option stands on the command line.
pub open spec fn no_options(cli: Cli) -> bool {
    &&& cli.prom is None && cli.nvram is None && cli.nveeprom is None && !cli.ip22
    &&& cli.bank0 is None && cli.bank1 is None && cli.bank2 is None && cli.bank3 is None
    &&& cli.jitv2_threads is None && cli.cpu is None && cli.gdb_port is None
    &&& cli.scsi1 is None && cli.scsi2 is None && cli.scsi3 is None && cli.scsi7 is None
    &&& cli.cdrom4 is None && cli.cdrom5 is None && cli.cdrom6 is None
    &&& !cli.scale2x && !cli.headless && !cli.no_audio && !cli.no_scsi_deferred_int
    &&& cli.nfs_dir is None && cli.nat_subnet is None && cli.net_mode is None
    &&& cli.pcap_interface is None && cli.tftp_dir is None && cli.load_elf is None
    &&& !cli.test_device && cli.test_device_dump is None && !cli.cheritest_dump_hook
    &&& !cli.ci && cli.ci_socket is None && !cli.ci_display && cli.serial_log is None
    &&& cli.clock_fixed_mhz is None
}

/// Without options, the configuration that comes out is the one that went in: its
/// devices, its banks, its backend and all that validation looks at. A control socket
/// without a display, which the configuration itself asks for, makes it headless.
pub proof fn law_no_options_change_nothing(cli: Cli, base: MachineConfig, r: MachineConfig)
    requires
        no_options(cli),
        cli.overrides(base, r),
    ensures
        crate::machine_config::devices(r.scsi@) == crate::machine_config::devices(base.scsi@),
        r.banks@ == base.banks@,
        r.prom@ == base.prom@ && r.nvram@ == base.nvram@ && r.nveeprom@ == base.nveeprom@,
        r.scale == base.scale && r.no_audio == base.no_audio && r.gdb_port == base.gdb_port,
        crate::text::opt_text(r.load_elf) == crate::text::opt_text(base.load_elf),
        crate::text::opt_text(r.nat_subnet) == crate::text::opt_text(base.nat_subnet),
        crate::text::opt_text(r.serial_log) == crate::text::opt_text(base.serial_log),
        r.test_device == base.test_device && r.scsi_deferred_int == base.scsi_deferred_int,
        r.ci_socket@ == base.ci_socket@,
        r.jitv2.threads == base.jitv2.threads,
        r.network.mode == base.network.mode,
        r.machine == base.machine,
        r.ci == base.ci && r.ci_display == base.ci_display,
        r.headless == (base.headless || (base.ci && !base.ci_display)),
        r.error() == base.error(),
{
    reveal(Cli::devices_over);
    assert(r.banks@ =~= base.banks@);
}

/// What the merge leaves open is nothing that validation looks at: two results of
/// one merge are both accepted, or rejected for the same reason.
pub proof fn law_the_merge_decides_acceptance(
    cli: Cli,
    base: MachineConfig,
    a: MachineConfig,
    b: MachineConfig,
)
    requires
        cli.overrides(base, a),
        cli.overrides(base, b),
    ensures
        a.error() == b.error(),
{
    assert(a.banks@ =~= b.banks@);
}

/// An image on the command line is what the device starts with, and devices that
/// the command line does not name keep theirs.
pub proof fn law_images_land_on_their_ids(
    devs: Map<u8, crate::config::DeviceView>,
    id: u8,
    path: Option<String>,
    cdrom: bool,
    extra: Seq<Seq<char>>,
    other: u8,
)
    requires
        other != id,
    ensures
        path is Some ==> {
            let dev = with_image(devs, id, path, cdrom, extra)[id];
            dev.path == path.unwrap()@ && dev.cdrom == cdrom
        },
        with_image(devs, id, path, cdrom, extra).contains_key(other) == devs.contains_key(other),
        devs.contains_key(other) ==> with_image(devs, id, path, cdrom, extra)[other] == devs[other],
        path is None ==> with_image(devs, id, path, cdrom, extra) == devs,
{
}

/// Every option that is present is what the result says, and where it is absent the result
/// says what the configuration does; what no option names stays. A control socket without a
/// display makes the machine headless. An interface to bridge onto asks for the bridged mode,
/// unless a mode is named. A directory to export keeps the version that was configured.
pub proof fn law_options_win(cli: Cli, base: MachineConfig, r: MachineConfig)
    requires
        cli.overrides(base, r),
    ensures
        cli.prom matches Some(v) ==> r.prom@ == v@,
        cli.prom is None ==> r.prom@ == base.prom@,
        cli.nvram matches Some(v) ==> r.nvram@ == v@,
        cli.nvram is None ==> r.nvram@ == base.nvram@,
        cli.nveeprom matches Some(v) ==> r.nveeprom@ == v@,
        cli.nveeprom is None ==> r.nveeprom@ == base.nveeprom@,
        cli.ci_socket matches Some(v) ==> r.ci_socket@ == v@,
        cli.ci_socket is None ==> r.ci_socket@ == base.ci_socket@,
        cli.bank0 matches Some(v) ==> r.banks@[0] == v,
        cli.bank0 is None ==> r.banks@[0] == base.banks@[0],
        cli.bank1 matches Some(v) ==> r.banks@[1] == v,
        cli.bank1 is None ==> r.banks@[1] == base.banks@[1],
        cli.bank2 matches Some(v) ==> r.banks@[2] == v,
        cli.bank2 is None ==> r.banks@[2] == base.banks@[2],
        cli.bank3 matches Some(v) ==> r.banks@[3] == v,
        cli.bank3 is None ==> r.banks@[3] == base.banks@[3],
        cli.scale2x ==> r.scale == 2,
        !cli.scale2x ==> r.scale == base.scale,
        cli.no_audio ==> r.no_audio,
        !cli.no_audio ==> r.no_audio == base.no_audio,
        cli.test_device ==> r.test_device,
        !cli.test_device ==> r.test_device == base.test_device,
        cli.cheritest_dump_hook ==> r.cheritest_dump_hook,
        !cli.cheritest_dump_hook ==> r.cheritest_dump_hook == base.cheritest_dump_hook,
        cli.ci ==> r.ci,
        !cli.ci ==> r.ci == base.ci,
        cli.ci_display ==> r.ci_display,
        !cli.ci_display ==> r.ci_display == base.ci_display,
        cli.headless || base.headless ==> r.headless,
        r.ci && !r.ci_display ==> r.headless,
        r.headless ==> cli.headless || base.headless || (r.ci && !r.ci_display),
        cli.gdb_port matches Some(v) ==> r.gdb_port == Some(v),
        cli.gdb_port is None ==> r.gdb_port == base.gdb_port,
        cli.load_elf matches Some(v) ==> (r.load_elf matches Some(w) && w@ == v@),
        cli.load_elf is None ==> (r.load_elf is Some <==> base.load_elf is Some),
        cli.load_elf is None ==> (base.load_elf matches Some(v) ==> (r.load_elf matches Some(w) && w@ == v@)),
        cli.test_device_dump matches Some(v) ==> (r.test_device_dump matches Some(w) && w@ == v@),
        cli.test_device_dump is None ==> (r.test_device_dump is Some <==> base.test_device_dump is Some),
        cli.test_device_dump is None ==> (base.test_device_dump matches Some(v) ==> (r.test_device_dump matches Some(w) && w@ == v@)),
        cli.nat_subnet matches Some(v) ==> (r.nat_subnet matches Some(w) && w@ == v@),
        cli.nat_subnet is None ==> (r.nat_subnet is Some <==> base.nat_subnet is Some),
        cli.nat_subnet is None ==> (base.nat_subnet matches Some(v) ==> (r.nat_subnet matches Some(w) && w@ == v@)),
        cli.serial_log matches Some(v) ==> (r.serial_log matches Some(w) && w@ == v@),
        cli.serial_log is None ==> (r.serial_log is Some <==> base.serial_log is Some),
        cli.serial_log is None ==> (base.serial_log matches Some(v) ==> (r.serial_log matches Some(w) && w@ == v@)),
        cli.pcap_interface matches Some(v) ==> (r.network.pcap_interface matches Some(w) && w@ == v@),
        cli.pcap_interface is None ==> (r.network.pcap_interface is Some <==> base.network.pcap_interface is Some),
        cli.pcap_interface is None ==> (base.network.pcap_interface matches Some(v) ==> (r.network.pcap_interface matches Some(w) && w@ == v@)),
        cli.tftp_dir matches Some(v) ==> (r.network.tftp_dir matches Some(w) && w@ == v@),
        cli.tftp_dir is None ==> (r.network.tftp_dir is Some <==> base.network.tftp_dir is Some),
        cli.tftp_dir is None ==> (base.network.tftp_dir matches Some(v) ==> (r.network.tftp_dir matches Some(w) && w@ == v@)),
        cli.net_mode matches Some(v) ==> r.network.mode == v,
        cli.net_mode is None && cli.pcap_interface is Some ==> r.network.mode == NetMode::Pcap,
        cli.net_mode is None && cli.pcap_interface is None ==> r.network.mode == base.network.mode,
        cli.nfs_dir matches Some(v) ==> (r.nfs matches Some(n) && n.shared_dir@ == v@),
        cli.nfs_dir is None ==> (r.nfs is Some <==> base.nfs is Some),
        cli.nfs_dir is None ==> (base.nfs matches Some(m) ==> (r.nfs matches Some(n)
            && n.shared_dir@ == m.shared_dir@)),
        base.nfs matches Some(m) ==> (r.nfs matches Some(n) && n.version == m.version),
        base.nfs is None ==> (r.nfs matches Some(n) ==> n.version == NfsVersion::Auto),
        cli.no_scsi_deferred_int ==> !r.scsi_deferred_int,
        !cli.no_scsi_deferred_int ==> r.scsi_deferred_int == base.scsi_deferred_int,
        cli.ip22 ==> r.machine.profile == MachineProfile::Indigo2Ip22,
        !cli.ip22 ==> r.machine.profile == base.machine.profile,
        cli.cpu matches Some(v) ==> r.machine.cpu == v,
        cli.cpu is None ==> r.machine.cpu == base.machine.cpu,
        cli.jitv2_threads matches Some(v) ==> r.jitv2.threads == v,
        cli.jitv2_threads is None ==> r.jitv2.threads == base.jitv2.threads,
        cli.clock_fixed_mhz matches Some(v) ==> (r.clock.fixed_mhz matches Some(w) && w.bits
            == v.bits && w.text@ == v.text@),
        cli.clock_fixed_mhz is None ==> r.clock == base.clock,
        r.network.mac == base.network.mac && r.network.nfs_pcap_ip == base.network.nfs_pcap_ip,
        r.port_forward == base.port_forward && r.vino == base.vino && r.audio == base.audio,
        r.graphics == base.graphics && r.impact == base.impact && r.debug == base.debug,
        r.perf == base.perf && r.rtc_offset == base.rtc_offset && r.ultra64 == base.ultra64,
        r.lock_aspect_ratio == base.lock_aspect_ratio,
        r.mouse_scroll_pixels_per_line == base.mouse_scroll_pixels_per_line,
{
}

/// The discs that a device was configured with, none if it was not there.
pub open spec fn discs_of(devs: Map<u8, crate::config::DeviceView>, id: u8) -> Seq<Seq<char>> {
    if devs.contains_key(id) {
        devs[id].discs
    } else {
        seq![]
    }
}

/// A device keeps all but its path, its kind of drive and its discs; one that was not there
/// has nothing else configured.
pub open spec fn kept_device(
    before: Map<u8, crate::config::DeviceView>,
    after: Map<u8, crate::config::DeviceView>,
    id: u8,
) -> bool {
    let d = after[id];
    if before.contains_key(id) {
        let b = before[id];
        &&& d.kind_field == b.kind_field && d.mac == b.mac && d.subnet == b.subnet
        &&& d.overlay == b.overlay && d.scratch == b.scratch && d.size_mb == b.size_mb
        &&& d.controller == b.controller
    } else {
        &&& d.kind_field == crate::config::ScsiKind::Disk && d.mac is None && d.subnet is None
        &&& !d.overlay && !d.scratch && d.size_mb is None && d.controller == 0
    }
}

/// Nothing changes at an id.
pub open spec fn unchanged(
    before: Map<u8, crate::config::DeviceView>,
    after: Map<u8, crate::config::DeviceView>,
    id: u8,
) -> bool {
    &&& after.contains_key(id) == before.contains_key(id)
    &&& before.contains_key(id) ==> after[id] == before[id]
}

/// The image that the command line names for an id: its path, whether it is for a CD-ROM
/// drive, and the further discs.
spec fn image_at(cli: Cli, id: int) -> (Option<String>, bool, Seq<Seq<char>>) {
    if id == 1 {
        (cli.scsi1, false, seq![])
    } else if id == 2 {
        (cli.scsi2, false, seq![])
    } else if id == 3 {
        (cli.scsi3, false, seq![])
    } else if id == 4 {
        (cli.cdrom4, true, crate::text::texts(cli.cdrom4_extra@))
    } else if id == 5 {
        (cli.cdrom5, true, crate::text::texts(cli.cdrom5_extra@))
    } else if id == 6 {
        (cli.cdrom6, true, crate::text::texts(cli.cdrom6_extra@))
    } else {
        (cli.scsi7, false, seq![])
    }
}

/// The devices once the images for the first `n` ids are in place.
spec fn staged(
    cli: Cli,
    devs: Map<u8, crate::config::DeviceView>,
    n: int,
) -> Map<u8, crate::config::DeviceView>
    decreases n,
{
    if n <= 0 {
        devs
    } else {
        let (path, cdrom, extra) = image_at(cli, n);
        with_image(staged(cli, devs, n - 1), n as u8, path, cdrom, extra)
    }
}

/// An image for one id leaves the others alone.
proof fn lemma_others_stay(
    cli: Cli,
    devs: Map<u8, crate::config::DeviceView>,
    from: int,
    to: int,
    id: u8,
)
    requires
        0 <= from <= to <= 7,
        id <= from || id > to,
    ensures
        unchanged(staged(cli, devs, from), staged(cli, devs, to), id),
    decreases to - from,
{
    if from < to {
        lemma_others_stay(cli, devs, from, to - 1, id);
    }
}

/// What the image for an id does to the device there.
proof fn lemma_image_lands(cli: Cli, devs: Map<u8, crate::config::DeviceView>, id: u8)
    requires
        1 <= id <= 7,
    ensures
        ({
            let after = staged(cli, devs, 7);
            let (path, cdrom, extra) = image_at(cli, id as int);
            &&& path matches Some(v) ==> {
                &&& after.contains_key(id)
                &&& after[id].path == v@ && after[id].cdrom == cdrom
                &&& kept_device(devs, after, id)
                &&& extra.len() > 0 ==> after[id].discs == extra
                &&& extra.len() == 0 ==> after[id].discs == discs_of(devs, id)
            }
            &&& path is None ==> unchanged(devs, after, id)
        }),
{
    lemma_others_stay(cli, devs, 0, id - 1, id);
    lemma_others_stay(cli, devs, id as int, 7, id);
}

/// Which option attaches what: the options for disks go to ids 1, 2, 3 and 7, those for
/// CD-ROM drives to 4, 5 and 6, each with its own path and its own further discs. A device
/// that is named keeps all else that was configured of it, and an id that no option names, or
/// that no option can name, stays as it was.
pub proof fn law_which_option_attaches_what(
    cli: Cli,
    before: Map<u8, crate::config::DeviceView>,
    other: u8,
)
    requires
        other == 0 || other > 7,
    ensures
        ({
            let after = cli.devices_over(before);
            &&& cli.scsi1 matches Some(v) ==> {
                &&& after.contains_key(1)
                &&& after[1].path == v@ && after[1].cdrom == false
                &&& kept_device(before, after, 1)
                &&& discs_of(before, 1) == after[1].discs
            }
            &&& cli.scsi1 is None ==> unchanged(before, after, 1)
            &&& cli.scsi2 matches Some(v) ==> {
                &&& after.contains_key(2)
                &&& after[2].path == v@ && after[2].cdrom == false
                &&& kept_device(before, after, 2)
                &&& discs_of(before, 2) == after[2].discs
            }
            &&& cli.scsi2 is None ==> unchanged(before, after, 2)
            &&& cli.scsi3 matches Some(v) ==> {
                &&& after.contains_key(3)
                &&& after[3].path == v@ && after[3].cdrom == false
                &&& kept_device(before, after, 3)
                &&& discs_of(before, 3) == after[3].discs
            }
            &&& cli.scsi3 is None ==> unchanged(before, after, 3)
            &&& cli.cdrom4 matches Some(v) ==> {
                &&& after.contains_key(4)
                &&& after[4].path == v@ && after[4].cdrom == true
                &&& kept_device(before, after, 4)
                &&& cli.cdrom4_extra@.len() == 0 ==> discs_of(before, 4) == after[4].discs
                &&& cli.cdrom4_extra@.len() > 0 ==> after[4].discs == crate::text::texts(
                    cli.cdrom4_extra@,
                )
            }
            &&& cli.cdrom4 is None ==> unchanged(before, after, 4)
            &&& cli.cdrom5 matches Some(v) ==> {
                &&& after.contains_key(5)
                &&& after[5].path == v@ && after[5].cdrom == true
                &&& kept_device(before, after, 5)
                &&& cli.cdrom5_extra@.len() == 0 ==> discs_of(before, 5) == after[5].discs
                &&& cli.cdrom5_extra@.len() > 0 ==> after[5].discs == crate::text::texts(
                    cli.cdrom5_extra@,
                )
            }
            &&& cli.cdrom5 is None ==> unchanged(before, after, 5)
            &&& cli.cdrom6 matches Some(v) ==> {
                &&& after.contains_key(6)
                &&& after[6].path == v@ && after[6].cdrom == true
                &&& kept_device(before, after, 6)
                &&& cli.cdrom6_extra@.len() == 0 ==> discs_of(before, 6) == after[6].discs
                &&& cli.cdrom6_extra@.len() > 0 ==> after[6].discs == crate::text::texts(
                    cli.cdrom6_extra@,
                )
            }
            &&& cli.cdrom6 is None ==> unchanged(before, after, 6)
            &&& cli.scsi7 matches Some(v) ==> {
                &&& after.contains_key(7)
                &&& after[7].path == v@ && after[7].cdrom == false
                &&& kept_device(before, after, 7)
                &&& discs_of(before, 7) == after[7].discs
            }
            &&& cli.scsi7 is None ==> unchanged(before, after, 7)
            &&& unchanged(before, after, other)
        }),
{
    assert(staged(cli, before, 7) == cli.devices_over(before)) by {
        reveal(Cli::devices_over);
        reveal_with_fuel(staged, 8);
    }
    lemma_image_lands(cli, before, 1);
    lemma_image_lands(cli, before, 2);
    lemma_image_lands(cli, before, 3);
    lemma_image_lands(cli, before, 4);
    lemma_image_lands(cli, before, 5);
    lemma_image_lands(cli, before, 6);
    lemma_image_lands(cli, before, 7);
    lemma_others_stay(cli, before, 0, 7, other);
}

} // verus!
