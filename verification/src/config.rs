//! The machine configuration: what the emulated machine is made of, what a
//! configuration must hold to be accepted, and what the network backends are
//! told of it.
use vstd::prelude::*;
use crate::net_addr::parse_mac;
use crate::net_addr::parse_nat_subnet;
use crate::net_addr::Ipv4Addr;
use crate::text::owned;

verus! {

/// Valid memory bank sizes in MB.
pub const VALID_BANK_SIZES: [u32; 6] = [0, 8, 16, 32, 64, 128];

/// Station address of `ec0` when none is configured: SGI's registered OUI and an
/// arbitrary host part.
pub const DEFAULT_MAC: [u8; 6] = [0x08, 0x00, 0x69, 0x12, 0x34, 0x56];

/// The first of two findings, if there is one.
pub open spec fn first_of(a: Option<Seq<char>>, b: Option<Seq<char>>) -> Option<Seq<char>> {
    if a is Some {
        a
    } else {
        b
    }
}

// ---------------------------------------------------------------------------
// SCSI targets
// ---------------------------------------------------------------------------

/// What sits at a SCSI id.
#[derive(Debug, Clone, Copy, PartialEq, Eq, Structural)]
pub enum ScsiKind {
    /// Hard disk (raw image, CHD, or COW overlay).
    Disk,
    /// CD-ROM drive (may start with an empty tray).
    Cdrom,
    /// DaynaPort SCSI/Link, a SCSI-attached Ethernet adapter. Has no disk image.
    Daynaport,
}

impl Default for ScsiKind {
    fn default() -> (r: Self)
        ensures
            r == ScsiKind::Disk,
    {
        ScsiKind::Disk
    }
}

impl ScsiKind {
    /// The name of the kind.
    pub open spec fn name(self) -> Seq<char> {
        match self {
            ScsiKind::Disk => "Hard disk"@,
            ScsiKind::Cdrom => "CD-ROM"@,
            ScsiKind::Daynaport => "DaynaPort SCSI/Link"@,
        }
    }

    /// The kind is the one that a configuration need not spell out.
    pub fn is_default(&self) -> (r: bool)
        ensures
            r == (*self == ScsiKind::Disk),
    {
        *self == ScsiKind::Disk
    }

    pub fn label(self) -> (r: &'static str)
        ensures
            r@ == self.name(),
    {
        match self {
            ScsiKind::Disk => "Hard disk",
            ScsiKind::Cdrom => "CD-ROM",
            ScsiKind::Daynaport => "DaynaPort SCSI/Link",
        }
    }
}

/// Configuration for a single SCSI device.
#[derive(Debug, Clone)]
pub struct ScsiDeviceConfig {
    /// Path to the disk image or ISO file (primary or current disc). Empty for a
    /// CD-ROM drive that starts with an empty tray.
    pub path: String,
    /// Additional ISO images for CD-ROM changers (ignored for a hard disk).
    pub discs: Vec<String>,
    /// The older spelling of a CD-ROM: true for one, whatever `kind_field` says
    /// of a disk.
    pub cdrom: bool,
    /// Target type. Read it through [`ScsiDeviceConfig::kind`], which reconciles
    /// it with `cdrom`.
    pub kind_field: ScsiKind,
    /// DaynaPort only: explicit station address.
    pub mac: Option<String>,
    /// DaynaPort only: subnet of this target's own gateway, in CIDR notation.
    pub subnet: Option<String>,
    /// Copy-on-write: the base image is never modified, writes go to an overlay.
    pub overlay: bool,
    /// Scratch volume: a raw block device that the host can write directly.
    pub scratch: bool,
    /// Size in MB of a scratch volume that has to be created.
    pub size_mb: Option<u32>,
    /// The SCSI controller that the target lives on: 0, or 1 on an Indigo2.
    pub controller: u8,
}

/// A SCSI device configuration as plain values.
pub struct DeviceView {
    pub path: Seq<char>,
    pub discs: Seq<Seq<char>>,
    pub cdrom: bool,
    pub kind_field: ScsiKind,
    pub mac: Option<Seq<char>>,
    pub subnet: Option<Seq<char>>,
    pub overlay: bool,
    pub scratch: bool,
    pub size_mb: Option<u32>,
    pub controller: u8,
}

impl View for ScsiDeviceConfig {
    type V = DeviceView;

    open spec fn view(&self) -> DeviceView {
        DeviceView {
            path: self.path@,
            discs: crate::text::texts(self.discs@),
            cdrom: self.cdrom,
            kind_field: self.kind_field,
            mac: crate::text::opt_text(self.mac),
            subnet: crate::text::opt_text(self.subnet),
            overlay: self.overlay,
            scratch: self.scratch,
            size_mb: self.size_mb,
            controller: self.controller,
        }
    }
}

impl DeviceView {
    /// A device with nothing configured.
    pub open spec fn blank() -> DeviceView {
        DeviceView {
            path: seq![],
            discs: seq![],
            cdrom: false,
            kind_field: ScsiKind::Disk,
            mac: None,
            subnet: None,
            overlay: false,
            scratch: false,
            size_mb: None,
            controller: 0,
        }
    }

    /// The target type: an explicit kind wins, and `cdrom` alone means CD-ROM.
    pub open spec fn kind(self) -> ScsiKind {
        if self.kind_field == ScsiKind::Disk && self.cdrom {
            ScsiKind::Cdrom
        } else {
            self.kind_field
        }
    }

    /// What is wrong with the station address or the subnet of a DaynaPort.
    pub open spec fn params_error(self) -> Option<Seq<char>> {
        let mac = match self.mac {
            Some(m) => crate::net_addr::mac_error(m),
            None => None,
        };
        let subnet = match self.subnet {
            Some(c) => crate::net_addr::subnet_error(c),
            None => None,
        };
        first_of(mac, subnet)
    }

    /// The station address of a DaynaPort at this id: the configured one, or one
    /// that ends in the id, so that two targets never collide.
    pub open spec fn station(self, id: u8) -> Seq<u8> {
        match self.mac {
            Some(m) => crate::net_addr::mac_octets(m),
            None => seq![0x00u8, 0x80u8, 0x19u8, 0x44u8, 0x50u8, id],
        }
    }

    /// The gateway of a DaynaPort's own subnet, 192.168.10.0/24 unless configured.
    pub open spec fn gateway(self) -> int {
        match self.subnet {
            Some(c) => crate::net_addr::subnet_base(c) + 1,
            None => crate::net_addr::address(192, 168, 10, 1),
        }
    }

    /// The netmask of a DaynaPort's own subnet.
    pub open spec fn netmask(self) -> int {
        match self.subnet {
            Some(c) => 0x1_0000_0000 - crate::net_addr::span(crate::net_addr::subnet_prefix(c)),
            None => crate::net_addr::address(255, 255, 255, 0),
        }
    }
}

impl Default for ScsiDeviceConfig {
    fn default() -> (r: Self)
        ensures
            r@ == DeviceView::blank(),
    {
        let r = ScsiDeviceConfig {
            path: String::new(),
            discs: Vec::new(),
            cdrom: false,
            kind_field: ScsiKind::Disk,
            mac: None,
            subnet: None,
            overlay: false,
            scratch: false,
            size_mb: None,
            controller: 0,
        };
        proof {
            assert(r@.path =~= seq![]);
            assert(r@.discs =~= seq![]);
        }
        r
    }
}

impl ScsiDeviceConfig {
    /// The target type, reconciling `kind_field` with the older `cdrom` bool.
    pub fn kind(&self) -> (r: ScsiKind)
        ensures
            r == self@.kind(),
    {
        match self.kind_field {
            ScsiKind::Disk if self.cdrom => ScsiKind::Cdrom,
            k => k,
        }
    }

    pub fn is_cdrom(&self) -> (r: bool)
        ensures
            r == (self@.kind() == ScsiKind::Cdrom),
    {
        self.kind() == ScsiKind::Cdrom
    }

    pub fn is_daynaport(&self) -> (r: bool)
        ensures
            r == (self@.kind() == ScsiKind::Daynaport),
    {
        self.kind() == ScsiKind::Daynaport
    }

    /// The settings of a DaynaPort at this SCSI id, with defaults filled in. The
    /// error describes a bad station address or subnet.
    pub fn daynaport_params(&self, id: u8) -> (r: Result<DaynaportParams, String>)
        ensures
            match r {
                Ok(p) => {
                    &&& self@.params_error() is None
                    &&& p.mac@ == self@.station(id)
                    &&& p.subnet.gateway_ip.0 == self@.gateway()
                    &&& p.subnet.client_ip.0 == self@.gateway() + 1
                    &&& p.subnet.netmask.0 == self@.netmask()
                },
                Err(e) => self@.params_error() == Some(e@),
            },
    {
        let mac: [u8; 6] = match &self.mac {
            Some(s) => match parse_mac(s.as_str()) {
                Ok(mac) => mac,
                Err(e) => {
                    return Err(e);
                },
            },
            None => [0x00, 0x80, 0x19, 0x44, 0x50, id],
        };
        let subnet = match &self.subnet {
            Some(cidr) => match parse_nat_subnet(cidr.as_str()) {
                Ok((gateway_ip, client_ip, netmask)) => NatSubnet { gateway_ip, client_ip, netmask },
                Err(e) => {
                    return Err(e);
                },
            },
            None => NatSubnet {
                gateway_ip: Ipv4Addr::new(192, 168, 10, 1),
                client_ip: Ipv4Addr::new(192, 168, 10, 2),
                netmask: Ipv4Addr::new(255, 255, 255, 0),
            },
        };
        proof {
            assert(mac@ =~= self@.station(id));
        }
        Ok(DaynaportParams { mac, subnet })
    }
}

/// What sits at an id: a DaynaPort exactly where the kind says so, a CD-ROM where the kind
/// says so or the older switch marks a disk as one, and a disk where neither does.
pub proof fn law_target_types(d: DeviceView)
    ensures
        d.kind() == ScsiKind::Daynaport <==> d.kind_field == ScsiKind::Daynaport,
        d.kind() == ScsiKind::Cdrom <==> d.kind_field == ScsiKind::Cdrom || (d.cdrom
            && d.kind_field == ScsiKind::Disk),
        d.kind() == ScsiKind::Disk <==> d.kind_field == ScsiKind::Disk && !d.cdrom,
{
}

/// The settings of a DaynaPort are refused exactly for a bad station address or a bad subnet.
/// Without an address, targets at different ids have different ones, which differ in the last
/// octet alone; with one, the id does not matter. Without a subnet, the target is as one with
/// the subnet 192.168.10.0/24.
pub proof fn law_daynaport_settings(d: DeviceView, a: u8, b: u8)
    ensures
        d.params_error() is None <==> {
            &&& d.mac matches Some(m) ==> crate::net_addr::mac_error(m) is None
            &&& d.subnet matches Some(c) ==> crate::net_addr::subnet_error(c) is None
        },
        d.mac matches Some(m) ==> d.station(a) == crate::net_addr::mac_octets(m) && d.station(b)
            == d.station(a),
        d.mac is None ==> {
            &&& d.station(a).len() == 6
            &&& d.station(a).take(5) == seq![0x00u8, 0x80, 0x19, 0x44, 0x50]
            &&& d.station(a)[5] == a
            &&& d.station(a) == d.station(b) <==> a == b
        },
        d.subnet is None ==> {
            let cidr = crate::net_addr::Ipv4Addr(0xC0A8_0A00).dotted() + seq!['/']
                + crate::text::decimal(24);
            let same = DeviceView { subnet: Some(cidr), ..d };
            &&& crate::net_addr::subnet_error(cidr) is None
            &&& same.gateway() == d.gateway()
            &&& same.netmask() == d.netmask()
        },
        d.subnet matches Some(c) ==> d.gateway() == crate::net_addr::subnet_base(c) + 1
            && d.netmask() + crate::net_addr::span(crate::net_addr::subnet_prefix(c))
            == 0x1_0000_0000,
{
    crate::net_addr::law_subnets_are_read(Ipv4Addr(0xC0A8_0A00), 24);
    vstd::arithmetic::power2::lemma2_to64();
    assert(crate::net_addr::span(24) == 256);
    assert(0xC0A8_0A00int % 256 == 0);
    if d.mac is None {
        assert(d.station(a).take(5) =~= seq![0x00u8, 0x80, 0x19, 0x44, 0x50]);
        assert(d.station(a)[5] == a && d.station(b)[5] == b);
    }
}

/// Resolved DaynaPort settings for one SCSI target.
#[derive(Debug, Clone, Copy)]
pub struct DaynaportParams {
    pub mac: [u8; 6],
    pub subnet: NatSubnet,
}

// ---------------------------------------------------------------------------
// Networking
// ---------------------------------------------------------------------------

/// Protocol for port forwarding.
#[derive(Debug, Clone, Copy, PartialEq, Eq, Structural)]
pub enum ForwardProto {
    Tcp,
    Udp,
}

/// Bind scope for a port forward listener.
#[derive(Debug, Clone, Copy, PartialEq, Eq, Structural)]
pub enum ForwardBind {
    /// Listen only on 127.0.0.1 (loopback only).
    Localhost,
    /// Listen on 0.0.0.0 (all interfaces).
    Any,
}

impl Default for ForwardBind {
    fn default() -> (r: Self)
        ensures
            r == ForwardBind::Localhost,
    {
        ForwardBind::Localhost
    }
}

/// One port-forward rule: a host port to a guest port on a given protocol.
#[derive(Debug, Clone, Copy, PartialEq, Eq, Structural)]
pub struct PortForwardConfig {
    pub proto: ForwardProto,
    /// Host-side port to listen on.
    pub host_port: u16,
    /// Guest-side port to forward to.
    pub guest_port: u16,
    pub bind: ForwardBind,
}

/// NFS protocol version to serve.
#[derive(Debug, Clone, Copy, PartialEq, Eq, Structural)]
pub enum NfsVersion {
    /// Answer whatever the guest mounts.
    Auto,
    V2,
    V3,
}

impl Default for NfsVersion {
    fn default() -> (r: Self)
        ensures
            r == NfsVersion::Auto,
    {
        NfsVersion::Auto
    }
}

/// NFS share configuration.
#[derive(Debug, Clone)]
pub struct NfsConfig {
    /// Directory to export over NFS.
    pub shared_dir: String,
    pub version: NfsVersion,
}

/// An NFS share as plain values.
pub open spec fn nfs_view(nfs: Option<NfsConfig>) -> Option<(Seq<char>, NfsVersion)> {
    match nfs {
        Some(n) => Some((n.shared_dir@, n.version)),
        None => None,
    }
}

/// A copy of an NFS share.
pub fn copy_nfs(nfs: &Option<NfsConfig>) -> (r: Option<NfsConfig>)
    ensures
        nfs_view(r) == nfs_view(*nfs),
{
    match nfs {
        Some(n) => Some(NfsConfig { shared_dir: n.shared_dir.clone(), version: n.version }),
        None => None,
    }
}

/// The addresses of a NAT subnet.
#[derive(Debug, Clone, Copy, PartialEq, Eq, Structural)]
pub struct NatSubnet {
    pub gateway_ip: Ipv4Addr,
    pub client_ip: Ipv4Addr,
    pub netmask: Ipv4Addr,
}

impl Default for NatSubnet {
    fn default() -> (r: Self)
        ensures
            r.gateway_ip.0 == crate::net_addr::address(192, 168, 0, 1),
            r.client_ip.0 == crate::net_addr::address(192, 168, 0, 2),
            r.netmask.0 == crate::net_addr::address(255, 255, 255, 0),
    {
        NatSubnet {
            gateway_ip: Ipv4Addr::new(192, 168, 0, 1),
            client_ip: Ipv4Addr::new(192, 168, 0, 2),
            netmask: Ipv4Addr::new(255, 255, 255, 0),
        }
    }
}

/// Selects which networking backend the Ethernet controller is wired to.
#[derive(Debug, Clone, Copy, PartialEq, Eq, Structural)]
pub enum NetMode {
    /// Built-in software NAT gateway. Needs no host privileges.
    Nat,
    /// Bridge raw Ethernet frames onto a real host interface.
    Pcap,
}

impl Default for NetMode {
    fn default() -> (r: Self)
        ensures
            r == NetMode::Nat,
    {
        NetMode::Nat
    }
}

/// Networking parameters extracted from [`MachineConfig`].
#[derive(Debug, Clone)]
pub struct NetworkConfig {
    pub nfs: Option<NfsConfig>,
    pub port_forward: Vec<PortForwardConfig>,
    /// Parsed subnet; `None` means the built-in default (192.168.0.0/24).
    pub nat_subnet: Option<NatSubnet>,
    pub mode: NetMode,
    /// Host interface to bridge onto; `None` means auto-pick.
    pub pcap_interface: Option<String>,
    /// Bridged mode only: virtual address of the in-process NFS server.
    pub nfs_pcap_ip: Option<Ipv4Addr>,
    /// Station address of `ec0`.
    pub mac: [u8; 6],
    /// Directory served read-only over TFTP; `None` disables the server.
    pub tftp_dir: Option<String>,
}

impl Default for NetworkConfig {
    fn default() -> (r: Self)
        ensures
            r.nfs is None,
            r.port_forward@ == Seq::<PortForwardConfig>::empty(),
            r.nat_subnet is None,
            r.mode == NetMode::Nat,
            r.pcap_interface is None,
            r.nfs_pcap_ip is None,
            r.mac == DEFAULT_MAC,
            r.tftp_dir is None,
    {
        NetworkConfig {
            nfs: None,
            port_forward: Vec::new(),
            nat_subnet: None,
            mode: NetMode::Nat,
            pcap_interface: None,
            nfs_pcap_ip: None,
            tftp_dir: None,
            mac: DEFAULT_MAC,
        }
    }
}

/// Backend selection and options of the bridged mode.
#[derive(Debug, Clone)]
pub struct NetworkSection {
    pub mode: NetMode,
    /// Host interface to bridge onto.
    pub pcap_interface: Option<String>,
    /// Bridged mode only: virtual address of the in-process NFS server.
    pub nfs_pcap_ip: Option<Ipv4Addr>,
    /// Station address of `ec0`.
    pub mac: Option<String>,
    /// Directory served read-only over TFTP.
    pub tftp_dir: Option<String>,
}

impl Default for NetworkSection {
    fn default() -> (r: Self)
        ensures
            r.mode == NetMode::Nat,
            r.pcap_interface is None,
            r.nfs_pcap_ip is None,
            r.mac is None,
            r.tftp_dir is None,
    {
        NetworkSection {
            mode: NetMode::Nat,
            pcap_interface: None,
            nfs_pcap_ip: None,
            mac: None,
            tftp_dir: None,
        }
    }
}

// ---------------------------------------------------------------------------
// Video input
// ---------------------------------------------------------------------------

/// Where the video-in capture comes from.
#[derive(Debug, Clone, Copy, PartialEq, Eq, Structural)]
pub enum VinoSource {
    /// Live host camera capture.
    Camera,
    /// Colour bars and an animated luma ramp.
    TestPattern,
    /// Solid black field.
    Black,
    /// Video-in disabled: no source and no capture thread.
    Off,
}

impl Default for VinoSource {
    fn default() -> (r: Self)
        ensures
            r == VinoSource::Off,
    {
        VinoSource::Off
    }
}

/// Broadcast video standard that the source emits.
#[derive(Debug, Clone, Copy, PartialEq, Eq, Structural)]
pub enum VinoStandard {
    /// 525 lines, 60 fields, interlaced.
    Ntsc,
    /// 625 lines, 50 fields, interlaced.
    Pal,
}

impl Default for VinoStandard {
    fn default() -> (r: Self)
        ensures
            r == VinoStandard::Ntsc,
    {
        VinoStandard::Ntsc
    }
}

/// Video-in configuration.
#[derive(Debug, Clone, Copy, PartialEq, Eq, Structural)]
pub struct VinoConfig {
    pub source: VinoSource,
    pub standard: VinoStandard,
    /// Index of the host camera to open.
    pub camera_index: u32,
}

impl Default for VinoConfig {
    fn default() -> (r: Self)
        ensures
            r.source == VinoSource::Off,
            r.standard == VinoStandard::Ntsc,
            r.camera_index == 0,
    {
        VinoConfig { source: VinoSource::Off, standard: VinoStandard::Ntsc, camera_index: 0 }
    }
}

// ---------------------------------------------------------------------------
// Platform and graphics
// ---------------------------------------------------------------------------

/// N64 development board configuration.
#[derive(Debug, Clone, Copy, PartialEq, Eq, Structural)]
pub struct Ultra64Config {
    pub enabled: bool,
}

impl Default for Ultra64Config {
    fn default() -> (r: Self)
        ensures
            !r.enabled,
    {
        Ultra64Config { enabled: false }
    }
}

/// Emulated machine profile.
#[derive(Debug, Clone, Copy, PartialEq, Eq, Structural)]
pub enum MachineProfile {
    /// SGI Indy IP24 (Guinness).
    IndyIp24,
    /// SGI Indigo2 IP22 (Fullhouse).
    Indigo2Ip22,
}

impl Default for MachineProfile {
    fn default() -> (r: Self)
        ensures
            r == MachineProfile::IndyIp24,
    {
        MachineProfile::IndyIp24
    }
}

impl MachineProfile {
    /// All profiles, in display order.
    pub const ALL: [MachineProfile; 2] = [MachineProfile::IndyIp24, MachineProfile::Indigo2Ip22];

    /// The name of the profile.
    pub open spec fn name(self) -> Seq<char> {
        match self {
            MachineProfile::IndyIp24 => "SGI Indy (IP24)"@,
            MachineProfile::Indigo2Ip22 => "SGI Indigo2 (IP22)"@,
        }
    }

    pub fn label(self) -> (r: &'static str)
        ensures
            r@ == self.name(),
    {
        match self {
            MachineProfile::IndyIp24 => "SGI Indy (IP24)",
            MachineProfile::Indigo2Ip22 => "SGI Indigo2 (IP22)",
        }
    }

    /// Whether the profile is implemented.
    pub fn supported(self) -> (r: bool)
        ensures
            r == (self == MachineProfile::IndyIp24 || self == MachineProfile::Indigo2Ip22),
    {
        matches!(self, MachineProfile::IndyIp24 | MachineProfile::Indigo2Ip22)
    }

    /// Guinness layout of the memory and I/O controllers, as opposed to Fullhouse.
    pub fn guinness(self) -> (r: bool)
        ensures
            r == (self == MachineProfile::IndyIp24),
    {
        matches!(self, MachineProfile::IndyIp24)
    }
}

/// Graphics board family.
#[derive(Debug, Clone, Copy, PartialEq, Eq, Structural)]
pub enum GraphicsBoard {
    /// Newport (REX3).
    Newport,
    /// GR3-XZ / Elan, register stub only.
    Xz,
}

impl Default for GraphicsBoard {
    fn default() -> (r: Self)
        ensures
            r == GraphicsBoard::Newport,
    {
        GraphicsBoard::Newport
    }
}

/// IMPACT board in one GIO64 slot.
#[derive(Debug, Clone, Copy, PartialEq, Eq, Structural)]
pub enum ImpactSlot {
    /// No board.
    Empty,
    Solid,
    High,
    Max,
}

impl Default for ImpactSlot {
    fn default() -> (r: Self)
        ensures
            r == ImpactSlot::Empty,
    {
        ImpactSlot::Empty
    }
}

/// IMPACT slot population of an Indigo2.
#[derive(Debug, Clone, Copy, PartialEq, Eq, Structural)]
pub struct ImpactSection {
    /// Graphics slot. Solid IMPACT anchors here.
    pub gfx: ImpactSlot,
    /// Expansion slot 0.
    pub exp0: ImpactSlot,
    /// Expansion slot 1.
    pub exp1: ImpactSlot,
}

impl Default for ImpactSection {
    fn default() -> (r: Self)
        ensures
            !r.populated(),
    {
        ImpactSection { gfx: ImpactSlot::Empty, exp0: ImpactSlot::Empty, exp1: ImpactSlot::Empty }
    }
}

impl ImpactSection {
    /// A slot holds a board.
    pub open spec fn populated(self) -> bool {
        self.gfx != ImpactSlot::Empty || self.exp0 != ImpactSlot::Empty || self.exp1
            != ImpactSlot::Empty
    }

    /// Two slots hold a High IMPACT board.
    pub open spec fn two_high(self) -> bool {
        ||| self.gfx == ImpactSlot::High && self.exp0 == ImpactSlot::High
        ||| self.gfx == ImpactSlot::High && self.exp1 == ImpactSlot::High
        ||| self.exp0 == ImpactSlot::High && self.exp1 == ImpactSlot::High
    }

    /// What no hardware has: two High boards, a slot populated after an empty
    /// one, or a Maximum board without a High one before it.
    pub open spec fn error(self) -> Option<Seq<char>> {
        if self.two_high() {
            Some("[impact] High+High is invalid — at most one High IMPACT board per system"@)
        } else if self.exp0 != ImpactSlot::Empty && self.gfx == ImpactSlot::Empty {
            Some("[impact] exp0 requires gfx slot populated"@)
        } else if self.exp1 != ImpactSlot::Empty && self.exp0 == ImpactSlot::Empty {
            Some("[impact] exp1 requires exp0 populated (Maximum IMPACT uses all three slots)"@)
        } else if self.exp1 == ImpactSlot::Max && self.exp0 != ImpactSlot::High {
            Some("[impact] Maximum IMPACT expects exp0=high when exp1=max"@)
        } else {
            None
        }
    }

    pub fn any_enabled(&self) -> (r: bool)
        ensures
            r == self.populated(),
    {
        self.gfx != ImpactSlot::Empty || self.exp0 != ImpactSlot::Empty || self.exp1
            != ImpactSlot::Empty
    }

    /// Whether the slots are populated as hardware can be.
    pub fn validate(&self) -> (r: Result<(), String>)
        ensures
            match r {
                Ok(_) => self.error() is None,
                Err(e) => self.error() == Some(e@),
            },
    {
        let slots = [self.gfx, self.exp0, self.exp1];
        let mut high_count: u32 = 0;
        if slots[0] == ImpactSlot::High {
            high_count = high_count + 1;
        }
        if slots[1] == ImpactSlot::High {
            high_count = high_count + 1;
        }
        if slots[2] == ImpactSlot::High {
            high_count = high_count + 1;
        }
        if high_count >= 2 {
            return Err(
                owned("[impact] High+High is invalid — at most one High IMPACT board per system"),
            );
        }
        if self.exp0 != ImpactSlot::Empty && self.gfx == ImpactSlot::Empty {
            return Err(owned("[impact] exp0 requires gfx slot populated"));
        }
        if self.exp1 != ImpactSlot::Empty && self.exp0 == ImpactSlot::Empty {
            return Err(
                owned(
                    "[impact] exp1 requires exp0 populated (Maximum IMPACT uses all three slots)",
                ),
            );
        }
        if self.exp1 == ImpactSlot::Max && self.exp0 != ImpactSlot::High {
            return Err(owned("[impact] Maximum IMPACT expects exp0=high when exp1=max"));
        }
        Ok(())
    }
}

/// Which slots hardware can have populated: from the graphics slot on without a gap, with at
/// most one High board, and a Maximum board in the last slot only behind a High one.
pub proof fn law_impact_boards(i: ImpactSection)
    ensures
        i.error() is None <==> {
            &&& i.exp0 != ImpactSlot::Empty ==> i.gfx != ImpactSlot::Empty
            &&& i.exp1 != ImpactSlot::Empty ==> i.gfx != ImpactSlot::Empty && i.exp0
                != ImpactSlot::Empty
            &&& i.gfx == ImpactSlot::High ==> i.exp0 != ImpactSlot::High && i.exp1
                != ImpactSlot::High
            &&& i.exp0 == ImpactSlot::High ==> i.exp1 != ImpactSlot::High
            &&& i.exp1 == ImpactSlot::Max ==> i.exp0 == ImpactSlot::High
        },
        !i.populated() <==> i.gfx == ImpactSlot::Empty && i.exp0 == ImpactSlot::Empty && i.exp1
            == ImpactSlot::Empty,
        !i.populated() ==> i.error() is None,
{
}

/// Newport video mode at start: the guest's own, or a preset of the host.
#[derive(Debug, Clone, Copy, PartialEq, Eq, Structural)]
pub enum NewportResolution {
    /// The guest programs the video timing.
    Guest,
    /// The host forces a mode of this visible size.
    Preset { width: u32, height: u32 },
}

impl Default for NewportResolution {
    fn default() -> (r: Self)
        ensures
            r == NewportResolution::Guest,
    {
        NewportResolution::Guest
    }
}

impl NewportResolution {
    pub fn is_guest(&self) -> (r: bool)
        ensures
            r == (*self == NewportResolution::Guest),
    {
        *self == NewportResolution::Guest
    }

    /// The visible size of a preset.
    pub fn visible_size(&self) -> (r: Option<(u32, u32)>)
        ensures
            r == match *self {
                NewportResolution::Guest => None::<(u32, u32)>,
                NewportResolution::Preset { width, height } => Some((width, height)),
            },
    {
        match *self {
            NewportResolution::Guest => None,
            NewportResolution::Preset { width, height } => Some((width, height)),
        }
    }
}

/// Newport head count and display options.
#[derive(Debug, Clone, Copy, PartialEq, Eq, Structural)]
pub struct GraphicsSection {
    pub board: GraphicsBoard,
    /// Newport heads to emulate (1 or 2).
    pub heads: u8,
    pub resolution: NewportResolution,
}

impl Default for GraphicsSection {
    fn default() -> (r: Self)
        ensures
            r.board == GraphicsBoard::Newport,
            r.heads == 1,
            r.resolution == NewportResolution::Guest,
    {
        GraphicsSection {
            board: GraphicsBoard::Newport,
            heads: 1,
            resolution: NewportResolution::Guest,
        }
    }
}

impl GraphicsSection {
    /// Pixel size for host window layout: the preset's, or 1280 by 1024.
    pub fn host_display_size(&self) -> (r: (u32, u32))
        ensures
            r == match self.resolution {
                NewportResolution::Guest => (1280u32, 1024u32),
                NewportResolution::Preset { width, height } => (width, height),
            },
    {
        match self.resolution.visible_size() {
            Some(size) => size,
            None => (1280, 1024),
        }
    }
}

/// Emulated CPU.
#[derive(Debug, Clone, Copy, PartialEq, Eq, Structural)]
pub enum CpuModel {
    /// MIPS R4400.
    R4400,
    /// MIPS R5000.
    R5000,
}

impl Default for CpuModel {
    fn default() -> (r: Self)
        ensures
            r == CpuModel::R4400,
    {
        CpuModel::R4400
    }
}

impl CpuModel {
    /// All processors, in display order.
    pub const ALL: [CpuModel; 2] = [CpuModel::R4400, CpuModel::R5000];

    /// The name of the model.
    pub open spec fn name(self) -> Seq<char> {
        match self {
            CpuModel::R4400 => "MIPS R4400"@,
            CpuModel::R5000 => "MIPS R5000"@,
        }
    }

    pub fn label(self) -> (r: &'static str)
        ensures
            r@ == self.name(),
    {
        match self {
            CpuModel::R4400 => "MIPS R4400",
            CpuModel::R5000 => "MIPS R5000",
        }
    }
}

/// Platform identity.
#[derive(Debug, Clone, Copy, PartialEq, Eq, Structural)]
pub struct MachineSection {
    pub profile: MachineProfile,
    pub cpu: CpuModel,
}

impl Default for MachineSection {
    fn default() -> (r: Self)
        ensures
            r.profile == MachineProfile::IndyIp24,
            r.cpu == CpuModel::R4400,
    {
        MachineSection { profile: MachineProfile::IndyIp24, cpu: CpuModel::R4400 }
    }
}

// ---------------------------------------------------------------------------
// Tuning
// ---------------------------------------------------------------------------

/// Debug and capture tuning, applied to the process environment at start.
#[derive(Debug, Clone)]
pub struct DebugConfig {
    pub gui_gl_capture: bool,
    pub no_idle: bool,
    pub debug_log: String,
}

impl Default for DebugConfig {
    fn default() -> (r: Self)
        ensures
            !r.gui_gl_capture,
            !r.no_idle,
            r.debug_log@ == Seq::<char>::empty(),
    {
        DebugConfig { gui_gl_capture: false, no_idle: false, debug_log: String::new() }
    }
}

/// What becomes of one environment variable.
#[derive(Debug, Clone)]
pub enum EnvChange {
    Assign(String),
    Remove,
}

/// The variable is set to `value` if `on`, and removed if not.
pub open spec fn switched(change: EnvChange, on: bool, value: Seq<char>) -> bool {
    match change {
        EnvChange::Assign(v) => on && v@ == value,
        EnvChange::Remove => !on,
    }
}

/// A switch that is on gives its variable the value, and one that is off removes it.
pub proof fn law_switches(change: EnvChange, on: bool, value: Seq<char>)
    ensures
        switched(change, on, value) ==> (change is Assign <==> on),
        on ==> (switched(change, on, value) <==> (change matches EnvChange::Assign(v) && v@
            == value)),
        !on ==> (switched(change, on, value) <==> change is Remove),
{
}

fn switch(on: bool) -> (r: EnvChange)
    ensures
        switched(r, on, "1"@),
{
    if on {
        EnvChange::Assign(owned("1"))
    } else {
        EnvChange::Remove
    }
}

impl DebugConfig {
    /// What the tuning does to the environment: the changes to `IRIS_NO_IDLE`, to
    /// `IRIS_GUI_GL` and to `IRIS_DEBUG_LOG`, in this order. A switch that is off
    /// and a log specification that is empty remove their variable.
    pub fn env_changes(&self) -> (r: (EnvChange, EnvChange, EnvChange))
        ensures
            switched(r.0, self.no_idle, "1"@),
            switched(r.1, self.gui_gl_capture, "1"@),
            switched(r.2, self.debug_log@.len() != 0, self.debug_log@),
    {
        let log = if self.debug_log.as_str().is_empty() {
            EnvChange::Remove
        } else {
            EnvChange::Assign(self.debug_log.clone())
        };
        (switch(self.no_idle), switch(self.gui_gl_capture), log)
    }
}

/// Compile-pool tuning.
#[derive(Debug, Clone, Copy, PartialEq, Eq, Structural)]
pub struct Jitv2Config {
    pub threads: usize,
}

impl Default for Jitv2Config {
    fn default() -> (r: Self)
        ensures
            r.threads == 1,
    {
        Jitv2Config { threads: 1 }
    }
}

/// A real number of the configuration: the bits of an IEEE 754 double, and the
/// number as text.
#[derive(Debug, Clone)]
pub struct Real {
    pub bits: u64,
    pub text: String,
}

impl Real {
    /// The number is greater than zero and finite: the sign is clear, the bits
    /// are not all zero, and the exponent is not all ones.
    pub open spec fn positive_finite(self) -> bool {
        0 < self.bits <= 0x7FEF_FFFF_FFFF_FFFF
    }

    pub fn is_positive_finite(&self) -> (r: bool)
        ensures
            r == self.positive_finite(),
    {
        0 < self.bits && self.bits <= 0x7FEF_FFFF_FFFF_FFFF
    }

    pub fn copy(&self) -> (r: Real)
        ensures
            r.bits == self.bits,
            r.text@ == self.text@,
    {
        Real { bits: self.bits, text: self.text.clone() }
    }
}

/// Which numbers are greater than zero and finite, by the parts of a double: the sign, bit
/// 63, is clear, the exponent, bits 52 to 62, is not all ones, and some bit is set.
pub proof fn law_positive_and_finite(r: Real)
    ensures
        r.positive_finite() <==> r.bits != 0 && r.bits >> 63 == 0 && (r.bits >> 52) & 0x7ff
            != 0x7ff,
{
    let b = r.bits;
    assert(0 < b <= 0x7FEF_FFFF_FFFF_FFFF <==> b != 0 && b >> 63 == 0 && (b >> 52) & 0x7ff
        != 0x7ff) by (bit_vector);
}

/// CP0 Count timer frequency.
#[derive(Debug, Clone)]
pub struct ClockConfig {
    /// Count frequency in MHz; `None` means the default of 33 MHz.
    pub fixed_mhz: Option<Real>,
}

impl Default for ClockConfig {
    fn default() -> (r: Self)
        ensures
            r.fixed_mhz is None,
    {
        ClockConfig { fixed_mhz: None }
    }
}

/// Host-side performance tuning.
#[derive(Debug, Clone, Copy, PartialEq, Eq, Structural)]
pub struct PerfConfig {
    pub thread_affinity: bool,
    pub cpu_core: Option<u32>,
    pub rex3_core: Option<u32>,
    pub refresh_core: Option<u32>,
}

impl Default for PerfConfig {
    fn default() -> (r: Self)
        ensures
            !r.thread_affinity,
            r.cpu_core is None,
            r.rex3_core is None,
            r.refresh_core is None,
    {
        PerfConfig { thread_affinity: false, cpu_core: None, rex3_core: None, refresh_core: None }
    }
}

/// Audio output tuning.
#[derive(Debug, Clone, Copy, PartialEq, Eq, Structural)]
pub struct AudioConfig {
    /// Pre-buffer duration (ms).
    pub prebuf_ms: u64,
    /// Fixed buffer size in frames; `None` means the host default.
    pub cpal_buffer_frames: Option<u32>,
}

impl Default for AudioConfig {
    fn default() -> (r: Self)
        ensures
            r.prebuf_ms == 20,
            r.cpal_buffer_frames is None,
    {
        AudioConfig { prebuf_ms: 20, cpal_buffer_frames: None }
    }
}

/// What the user reads of each kind of target, each machine and each processor.
pub proof fn law_names()
    ensures
        ScsiKind::Disk.name() == "Hard disk"@,
        ScsiKind::Cdrom.name() == "CD-ROM"@,
        ScsiKind::Daynaport.name() == "DaynaPort SCSI/Link"@,
        MachineProfile::IndyIp24.name() == "SGI Indy (IP24)"@,
        MachineProfile::Indigo2Ip22.name() == "SGI Indigo2 (IP22)"@,
        CpuModel::R4400.name() == "MIPS R4400"@,
        CpuModel::R5000.name() == "MIPS R5000"@,
{
}

/// A device is taken for what its fields say, and so is a share.
pub proof fn law_views_of_devices(d: ScsiDeviceConfig, nfs: NfsConfig)
    ensures
        d@.path == d.path@ && d@.cdrom == d.cdrom && d@.kind_field == d.kind_field,
        d@.overlay == d.overlay && d@.scratch == d.scratch && d@.size_mb == d.size_mb,
        d@.controller == d.controller,
        d@.mac is Some <==> d.mac is Some,
        d.mac matches Some(m) ==> d@.mac == Some(m@),
        d@.subnet is Some <==> d.subnet is Some,
        d.subnet matches Some(c) ==> d@.subnet == Some(c@),
        d@.discs.len() == d.discs@.len(),
        forall|i: int| 0 <= i < d.discs@.len() ==> #[trigger] d@.discs[i] == d.discs@[i]@,
        nfs_view(Some(nfs)) == Some((nfs.shared_dir@, nfs.version)),
        nfs_view(None) is None,
{
}

} // verus!
