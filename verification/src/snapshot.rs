//! Data model of one snapshot of the system's USB-C state: ports, power
//! sources, PD identities, attached USB and Thunderbolt devices.
use vstd::prelude::*;
use crate::pdvdo::{CableVdo, IdHeader, ProductVdo};
use crate::strings::{dec, owned, push_dec, push_str};

verus! {

/// The values behind a sequence of references.
pub open spec fn derefs<T>(s: Seq<&T>) -> Seq<T> {
    s.map_values(|r: &T| *r)
}

/// One power data object a source advertises.
#[derive(Debug, Clone, Copy)]
pub struct PowerOption {
    pub voltage_mv: u32,
    pub max_current_ma: u32,
    pub max_power_mw: u32,
    pub kind: PowerOptionKind,
}

/// `v * c / 1000` as a `u32` (wrapping), the product of millivolts and milliamps in milliwatts.
pub open spec fn spec_mw(v: u32, c: u32) -> u32 {
    ((v as nat * c as nat) / 1000) as u32
}

proof fn lemma_mul_u32(a: u32, b: u32)
    ensures
        a as nat * b as nat <= u64::MAX,
{
    vstd::arithmetic::mul::lemma_mul_upper_bound(a as int, 0xffff_ffff, b as int, 0xffff_ffff);
}

impl PowerOption {
    /// A fixed-supply option with power `voltage_mv * max_current_ma / 1000` mW.
    pub fn fixed(voltage_mv: u32, max_current_ma: u32) -> (res: Self)
        ensures
            res.voltage_mv == voltage_mv,
            res.max_current_ma == max_current_ma,
            res.max_power_mw == spec_mw(voltage_mv, max_current_ma),
            res.kind == PowerOptionKind::Fixed,
    {
        proof {
            lemma_mul_u32(voltage_mv, max_current_ma);
        }
        let prod: u64 = voltage_mv as u64 * max_current_ma as u64;
        let p = (prod / 1000) as u32;
        PowerOption { voltage_mv, max_current_ma, max_power_mw: p, kind: PowerOptionKind::Fixed }
    }
}

#[derive(Debug, Clone, Copy, PartialEq, Eq, Structural)]
pub enum PowerOptionKind {
    Fixed,
    Variable,
    Battery,
    Pps,
}

impl PowerOptionKind {
    pub open spec fn spec_label(self) -> Seq<char> {
        match self {
            PowerOptionKind::Fixed => "fixed"@,
            PowerOptionKind::Variable => "variable"@,
            PowerOptionKind::Battery => "battery"@,
            PowerOptionKind::Pps => "PPS"@,
        }
    }

    pub fn label(self) -> (res: &'static str)
        ensures
            res@ == self.spec_label(),
    {
        match self {
            PowerOptionKind::Fixed => "fixed",
            PowerOptionKind::Variable => "variable",
            PowerOptionKind::Battery => "battery",
            PowerOptionKind::Pps => "PPS",
        }
    }
}

/// A USB-PD power source (charger) seen on one port.
#[derive(Debug, Clone)]
pub struct PowerSource {
    pub port_key: String,
    pub name: String,
    pub max_power_mw: u32,
    pub options: Vec<PowerOption>,
    pub winning: Option<PowerOption>,
    pub negotiated_mv: Option<u32>,
    pub negotiated_ma: Option<u32>,
    pub usb_type: Option<String>,
}

impl PowerSource {
    pub open spec fn spec_negotiated_mw(&self) -> Option<u32> {
        match (self.negotiated_mv, self.negotiated_ma) {
            (Some(v), Some(a)) => Some(spec_mw(v, a)),
            _ => None,
        }
    }

    /// Live-negotiated power in mW, when both voltage and current are known.
    pub fn negotiated_mw(&self) -> (res: Option<u32>)
        ensures
            res == self.spec_negotiated_mw(),
    {
        match (self.negotiated_mv, self.negotiated_ma) {
            (Some(v), Some(a)) => {
                proof {
                    lemma_mul_u32(v, a);
                }
                let prod: u64 = v as u64 * a as u64;
                Some((prod / 1000) as u32)
            },
            _ => None,
        }
    }
}

/// Which end of the link a PD identity came from.
#[derive(Debug, Clone, Copy, PartialEq, Eq, Structural)]
pub enum PdEndpoint {
    Sop,
    SopPrime,
}

impl PdEndpoint {
    pub open spec fn spec_as_str(self) -> Seq<char> {
        match self {
            PdEndpoint::Sop => "SOP"@,
            PdEndpoint::SopPrime => "SOP'"@,
        }
    }

    pub fn as_str(self) -> (res: &'static str)
        ensures
            res@ == self.spec_as_str(),
    {
        match self {
            PdEndpoint::Sop => "SOP",
            PdEndpoint::SopPrime => "SOP'",
        }
    }
}

/// Discover Identity data of a partner (SOP) or cable e-marker (SOP').
#[derive(Debug, Clone)]
pub struct PdIdentity {
    pub port_key: String,
    pub endpoint: PdEndpoint,
    pub vendor_id: u16,
    pub product_id: u16,
    pub id_header: Option<IdHeader>,
    pub product_vdo: Option<ProductVdo>,
    pub cable_vdo: Option<CableVdo>,
    pub vdos_hex: Vec<String>,
}

/// An alternate mode of a port.
#[derive(Debug, Clone)]
pub struct AltMode {
    pub svid: u16,
    pub vdo: u32,
    pub active: bool,
    pub description: Option<String>,
}

impl AltMode {
    pub fn is_displayport(&self) -> (res: bool)
        ensures
            res == (self.svid == 0xff01),
    {
        self.svid == 0xff01
    }

    pub fn is_thunderbolt(&self) -> (res: bool)
        ensures
            res == (self.svid == 0x8087),
    {
        self.svid == 0x8087
    }
}

/// One USB-C port and what the kernel says about it.
#[derive(Debug, Clone)]
pub struct UsbcPort {
    pub port_key: String,
    pub name: String,
    pub data_role: Option<String>,
    pub power_role: Option<String>,
    pub power_operation_mode: Option<String>,
    pub typec_revision: Option<String>,
    pub pd_revision: Option<String>,
    pub partner_present: bool,
    pub partner_supports_pd: Option<bool>,
    pub partner_pd_revision: Option<String>,
    pub cable_present: bool,
    pub cable_type: Option<String>,
    pub alt_modes: Vec<AltMode>,
    pub raw_attrs: Vec<(String, String)>,
}

impl UsbcPort {
    pub open spec fn spec_connected(&self) -> bool {
        self.partner_present || self.cable_present
    }

    /// Whether anything (partner or cable) is plugged in.
    pub fn connected(&self) -> (res: bool)
        ensures
            res == self.spec_connected(),
    {
        self.partner_present || self.cable_present
    }

    pub open spec fn spec_has_active(&self, svid: u16) -> bool {
        exists|i: int|
            0 <= i < self.alt_modes@.len() && #[trigger] self.alt_modes@[i].svid == svid
                && self.alt_modes@[i].active
    }

    fn has_active(&self, svid: u16) -> (res: bool)
        ensures
            res == self.spec_has_active(svid),
    {
        let mut i: usize = 0;
        while i < self.alt_modes.len()
            invariant
                i <= self.alt_modes@.len(),
                forall|j: int|
                    0 <= j < i ==> !(#[trigger] self.alt_modes@[j].svid == svid
                        && self.alt_modes@[j].active),
            decreases self.alt_modes.len() - i,
        {
            if self.alt_modes[i].svid == svid && self.alt_modes[i].active {
                return true;
            }
            i = i + 1;
        }
        false
    }

    /// Whether a DisplayPort alternate mode is active.
    pub fn has_active_dp(&self) -> (res: bool)
        ensures
            res == self.spec_has_active(0xff01),
    {
        self.has_active(0xff01)
    }

    /// Whether a Thunderbolt alternate mode is active.
    pub fn has_active_tbt(&self) -> (res: bool)
        ensures
            res == self.spec_has_active(0x8087),
    {
        self.has_active(0x8087)
    }
}

/// An attached USB device.
#[derive(Debug, Clone)]
pub struct UsbDevice {
    pub bus: u32,
    pub devnum: u32,
    pub path: String,
    pub speed_mbps: Option<u32>,
    pub vendor_id: Option<u16>,
    pub product_id: Option<u16>,
    pub manufacturer: Option<String>,
    pub product: Option<String>,
}

/// The text `speed_label` gives for a speed in Mbps.
pub open spec fn spec_speed_label(speed: Option<u32>) -> Seq<char> {
    match speed {
        Some(s) => if s == 20000 {
            "USB4 (20 Gbps)"@
        } else if s == 10000 {
            "SuperSpeed+ (10 Gbps)"@
        } else if s == 5000 {
            "SuperSpeed (5 Gbps)"@
        } else if s == 480 {
            "High-Speed (480 Mbps)"@
        } else if s == 12 {
            "Full-Speed (12 Mbps)"@
        } else if s >= 1000 {
            dec((s / 1000) as nat) + " Gbps"@
        } else {
            dec(s as nat) + " Mbps"@
        },
        None => "unknown speed"@,
    }
}

impl UsbDevice {
    /// The negotiated speed in words.
    pub fn speed_label(&self) -> (res: String)
        ensures
            res@ == spec_speed_label(self.speed_mbps),
    {
        match self.speed_mbps {
            Some(20000) => owned("USB4 (20 Gbps)"),
            Some(10000) => owned("SuperSpeed+ (10 Gbps)"),
            Some(5000) => owned("SuperSpeed (5 Gbps)"),
            Some(480) => owned("High-Speed (480 Mbps)"),
            Some(12) => owned("Full-Speed (12 Mbps)"),
            Some(s) => {
                let mut out = String::new();
                if s >= 1000 {
                    push_dec(&mut out, (s / 1000) as u64);
                    push_str(&mut out, " Gbps");
                } else {
                    push_dec(&mut out, s as u64);
                    push_str(&mut out, " Mbps");
                }
                out
            },
            None => owned("unknown speed"),
        }
    }
}

/// A Thunderbolt / USB4 device.
#[derive(Debug, Clone)]
pub struct ThunderboltDevice {
    pub path: String,
    pub vendor_name: Option<String>,
    pub device_name: Option<String>,
    pub authorized: Option<bool>,
}

/// Everything read from the system at one moment.
#[derive(Debug, Clone)]
pub struct CableSnapshot {
    pub ports: Vec<UsbcPort>,
    pub power_sources: Vec<PowerSource>,
    pub identities: Vec<PdIdentity>,
    pub usb_devices: Vec<UsbDevice>,
    pub thunderbolt_devices: Vec<ThunderboltDevice>,
}

impl Default for CableSnapshot {
    fn default() -> (res: Self)
        ensures
            res.ports@.len() == 0,
            res.power_sources@.len() == 0,
            res.identities@.len() == 0,
            res.usb_devices@.len() == 0,
            res.thunderbolt_devices@.len() == 0,
    {
        CableSnapshot {
            ports: Vec::new(),
            power_sources: Vec::new(),
            identities: Vec::new(),
            usb_devices: Vec::new(),
            thunderbolt_devices: Vec::new(),
        }
    }
}

/// The power sources whose port key is `key`, in order.
pub open spec fn sources_with_key(s: Seq<PowerSource>, key: Seq<char>) -> Seq<PowerSource>
    decreases s.len(),
{
    if s.len() == 0 {
        s
    } else if s.last().port_key@ == key {
        sources_with_key(s.drop_last(), key).push(s.last())
    } else {
        sources_with_key(s.drop_last(), key)
    }
}

/// The identities whose port key is `key`, in order.
pub open spec fn identities_with_key(s: Seq<PdIdentity>, key: Seq<char>) -> Seq<PdIdentity>
    decreases s.len(),
{
    if s.len() == 0 {
        s
    } else if s.last().port_key@ == key {
        identities_with_key(s.drop_last(), key).push(s.last())
    } else {
        identities_with_key(s.drop_last(), key)
    }
}

impl CableSnapshot {
    /// The power sources of `port`, in snapshot order.
    pub fn sources_for<'a>(&'a self, port: &UsbcPort) -> (res: Vec<&'a PowerSource>)
        ensures
            derefs(res@) == sources_with_key(self.power_sources@, port.port_key@),
    {
        let mut out: Vec<&'a PowerSource> = Vec::new();
        let mut i: usize = 0;
        while i < self.power_sources.len()
            invariant
                i <= self.power_sources@.len(),
                derefs(out@) == sources_with_key(self.power_sources@.take(i as int), port.port_key@),
            decreases self.power_sources.len() - i,
        {
            let s = &self.power_sources[i];
            assert(self.power_sources@.take(i + 1).drop_last() =~= self.power_sources@.take(i as int));
            if s.port_key == port.port_key {
                out.push(s);
            }
            i = i + 1;
            assert(derefs(out@) =~= sources_with_key(self.power_sources@.take(i as int), port.port_key@));
        }
        assert(self.power_sources@.take(i as int) =~= self.power_sources@);
        out
    }

    /// The PD identities of `port`, in snapshot order.
    pub fn identities_for<'a>(&'a self, port: &UsbcPort) -> (res: Vec<&'a PdIdentity>)
        ensures
            derefs(res@) == identities_with_key(self.identities@, port.port_key@),
    {
        let mut out: Vec<&'a PdIdentity> = Vec::new();
        let mut i: usize = 0;
        while i < self.identities.len()
            invariant
                i <= self.identities@.len(),
                derefs(out@) == identities_with_key(self.identities@.take(i as int), port.port_key@),
            decreases self.identities.len() - i,
        {
            let s = &self.identities[i];
            assert(self.identities@.take(i + 1).drop_last() =~= self.identities@.take(i as int));
            if s.port_key == port.port_key {
                out.push(s);
            }
            i = i + 1;
            assert(derefs(out@) =~= identities_with_key(self.identities@.take(i as int), port.port_key@));
        }
        assert(self.identities@.take(i as int) =~= self.identities@);
        out
    }
}


/// The text of an optional string.
pub open spec fn opt_view(o: Option<String>) -> Option<Seq<char>> {
    match o {
        Some(s) => Some(s@),
        None => None,
    }
}

/// Mathematical model of an `AltMode`.
pub ghost struct AltModeModel {
    pub svid: u16,
    pub vdo: u32,
    pub active: bool,
    pub description: Option<Seq<char>>,
}

impl View for AltMode {
    type V = AltModeModel;

    open spec fn view(&self) -> AltModeModel {
        AltModeModel {
            svid: self.svid,
            vdo: self.vdo,
            active: self.active,
            description: opt_view(self.description),
        }
    }
}

/// Mathematical model of a `UsbcPort`.
pub ghost struct PortModel {
    pub port_key: Seq<char>,
    pub name: Seq<char>,
    pub data_role: Option<Seq<char>>,
    pub power_role: Option<Seq<char>>,
    pub power_operation_mode: Option<Seq<char>>,
    pub typec_revision: Option<Seq<char>>,
    pub pd_revision: Option<Seq<char>>,
    pub partner_present: bool,
    pub partner_supports_pd: Option<bool>,
    pub partner_pd_revision: Option<Seq<char>>,
    pub cable_present: bool,
    pub cable_type: Option<Seq<char>>,
    pub alt_modes: Seq<AltModeModel>,
    pub raw_attrs: Seq<(Seq<char>, Seq<char>)>,
}

impl View for UsbcPort {
    type V = PortModel;

    open spec fn view(&self) -> PortModel {
        PortModel {
            port_key: self.port_key@,
            name: self.name@,
            data_role: opt_view(self.data_role),
            power_role: opt_view(self.power_role),
            power_operation_mode: opt_view(self.power_operation_mode),
            typec_revision: opt_view(self.typec_revision),
            pd_revision: opt_view(self.pd_revision),
            partner_present: self.partner_present,
            partner_supports_pd: self.partner_supports_pd,
            partner_pd_revision: opt_view(self.partner_pd_revision),
            cable_present: self.cable_present,
            cable_type: opt_view(self.cable_type),
            alt_modes: self.alt_modes@.map_values(|m: AltMode| m@),
            raw_attrs: self.raw_attrs@.map_values(|p: (String, String)| (p.0@, p.1@)),
        }
    }
}

/// Mathematical model of a `PowerSource`.
pub ghost struct SourceModel {
    pub port_key: Seq<char>,
    pub name: Seq<char>,
    pub max_power_mw: u32,
    pub options: Seq<PowerOption>,
    pub winning: Option<PowerOption>,
    pub negotiated_mv: Option<u32>,
    pub negotiated_ma: Option<u32>,
    pub usb_type: Option<Seq<char>>,
}

impl View for PowerSource {
    type V = SourceModel;

    open spec fn view(&self) -> SourceModel {
        SourceModel {
            port_key: self.port_key@,
            name: self.name@,
            max_power_mw: self.max_power_mw,
            options: self.options@,
            winning: self.winning,
            negotiated_mv: self.negotiated_mv,
            negotiated_ma: self.negotiated_ma,
            usb_type: opt_view(self.usb_type),
        }
    }
}

/// Mathematical model of a `PdIdentity`.
pub ghost struct IdentityModel {
    pub port_key: Seq<char>,
    pub endpoint: PdEndpoint,
    pub vendor_id: u16,
    pub product_id: u16,
    pub id_header: Option<IdHeader>,
    pub product_vdo: Option<ProductVdo>,
    pub cable_vdo: Option<CableVdo>,
    pub vdos_hex: Seq<Seq<char>>,
}

impl View for PdIdentity {
    type V = IdentityModel;

    open spec fn view(&self) -> IdentityModel {
        IdentityModel {
            port_key: self.port_key@,
            endpoint: self.endpoint,
            vendor_id: self.vendor_id,
            product_id: self.product_id,
            id_header: self.id_header,
            product_vdo: self.product_vdo,
            cable_vdo: self.cable_vdo,
            vdos_hex: self.vdos_hex@.map_values(|s: String| s@),
        }
    }
}

/// Mathematical model of a `UsbDevice`.
pub ghost struct UsbDeviceModel {
    pub bus: u32,
    pub devnum: u32,
    pub path: Seq<char>,
    pub speed_mbps: Option<u32>,
    pub vendor_id: Option<u16>,
    pub product_id: Option<u16>,
    pub manufacturer: Option<Seq<char>>,
    pub product: Option<Seq<char>>,
}

impl View for UsbDevice {
    type V = UsbDeviceModel;

    open spec fn view(&self) -> UsbDeviceModel {
        UsbDeviceModel {
            bus: self.bus,
            devnum: self.devnum,
            path: self.path@,
            speed_mbps: self.speed_mbps,
            vendor_id: self.vendor_id,
            product_id: self.product_id,
            manufacturer: opt_view(self.manufacturer),
            product: opt_view(self.product),
        }
    }
}

/// Mathematical model of a `ThunderboltDevice`.
pub ghost struct TbDeviceModel {
    pub path: Seq<char>,
    pub vendor_name: Option<Seq<char>>,
    pub device_name: Option<Seq<char>>,
    pub authorized: Option<bool>,
}

impl View for ThunderboltDevice {
    type V = TbDeviceModel;

    open spec fn view(&self) -> TbDeviceModel {
        TbDeviceModel {
            path: self.path@,
            vendor_name: opt_view(self.vendor_name),
            device_name: opt_view(self.device_name),
            authorized: self.authorized,
        }
    }
}

/// Mathematical model of a `CableSnapshot`.
pub ghost struct SnapshotModel {
    pub ports: Seq<PortModel>,
    pub power_sources: Seq<SourceModel>,
    pub identities: Seq<IdentityModel>,
    pub usb_devices: Seq<UsbDeviceModel>,
    pub thunderbolt_devices: Seq<TbDeviceModel>,
}

impl View for CableSnapshot {
    type V = SnapshotModel;

    open spec fn view(&self) -> SnapshotModel {
        SnapshotModel {
            ports: self.ports@.map_values(|p: UsbcPort| p@),
            power_sources: self.power_sources@.map_values(|p: PowerSource| p@),
            identities: self.identities@.map_values(|p: PdIdentity| p@),
            usb_devices: self.usb_devices@.map_values(|p: UsbDevice| p@),
            thunderbolt_devices: self.thunderbolt_devices@.map_values(|p: ThunderboltDevice| p@),
        }
    }
}

} // verus!
