//! The structured per-port report behind the JSON output: every figure the
//! JSON document carries, as plain values. Power figures stay in milli-units
//! here; the JSON writer shows them as volts, amps and watts.
use vstd::prelude::*;
use crate::pdvdo::{CableType, CableVdo, IdHeader};
use crate::snapshot::{
    derefs, identities_with_key, opt_view, sources_with_key, AltMode, CableSnapshot, PdEndpoint,
    PdIdentity, PowerOption, PowerSource, UsbcPort,
};
use crate::strings::{hex_padded, owned, push_hex_padded, push_str, views};
use crate::summary::{
    device_kind, diagnose, diagnose_in_range, diagnoses, find_endpoint, first_with,
    spec_bottleneck, spec_bullets, spec_diag_detail, spec_diag_summary, spec_headline,
    spec_is_warning, spec_status, spec_subtitle, summarize, summarize_in_range, texts_fit,
    PowerText,
};
use crate::vendor::{name_for, spec_name_for};

verus! {

pub open spec fn spec_alt_mode_name(svid: u16) -> Seq<char> {
    if svid == 0xff01 {
        "DisplayPort"@
    } else if svid == 0x8087 {
        "Thunderbolt"@
    } else if svid == 0x413c {
        "Dell"@
    } else {
        "Vendor"@
    }
}

/// The name of the alternate mode an SVID stands for.
pub fn alt_mode_name(svid: u16) -> (res: &'static str)
    ensures
        res@ == spec_alt_mode_name(svid),
{
    match svid {
        0xff01 => "DisplayPort",
        0x8087 => "Thunderbolt",
        0x413c => "Dell",
        _ => "Vendor",
    }
}

/// `0x` and `n` in lower-case hexadecimal, zero-padded to `width` digits.
pub open spec fn prefixed_hex(n: nat, width: nat) -> Seq<char> {
    "0x"@ + hex_padded(n, width, false)
}

fn prefixed_hex_string(n: u64, width: usize) -> (res: String)
    ensures
        res@ == prefixed_hex(n as nat, width as nat),
{
    let mut s = owned("0x");
    push_hex_padded(&mut s, n, width, false);
    s
}

fn owned_opt(o: &Option<String>) -> (res: Option<String>)
    ensures
        opt_view(res) == opt_view(*o),
{
    match o {
        Some(s) => Some(owned(s.as_str())),
        None => None,
    }
}

/// An alternate mode as the report lists it.
pub struct AltModeReport {
    pub svid_hex: String,
    pub svid: u16,
    pub vdo_hex: String,
    pub active: bool,
    pub description: Option<String>,
    pub name: &'static str,
}

pub open spec fn alt_mode_reported(m: AltMode, r: AltModeReport) -> bool {
    &&& r.svid_hex@ == prefixed_hex(m.svid as nat, 4)
    &&& r.svid == m.svid
    &&& r.vdo_hex@ == prefixed_hex(m.vdo as nat, 8)
    &&& r.active == m.active
    &&& opt_view(r.description) == opt_view(m.description)
    &&& r.name@ == spec_alt_mode_name(m.svid)
}

fn alt_mode_report(m: &AltMode) -> (res: AltModeReport)
    ensures
        alt_mode_reported(*m, res),
{
    AltModeReport {
        svid_hex: prefixed_hex_string(m.svid as u64, 4),
        svid: m.svid,
        vdo_hex: prefixed_hex_string(m.vdo as u64, 8),
        active: m.active,
        description: owned_opt(&m.description),
        name: alt_mode_name(m.svid),
    }
}

fn alt_mode_reports(modes: &Vec<AltMode>) -> (res: Vec<AltModeReport>)
    ensures
        res@.len() == modes@.len(),
        forall|i: int| 0 <= i < modes@.len() ==> alt_mode_reported(modes@[i], #[trigger] res@[i]),
{
    let mut out: Vec<AltModeReport> = Vec::new();
    let mut i: usize = 0;
    while i < modes.len()
        invariant
            i <= modes@.len(),
            out@.len() == i,
            forall|j: int| 0 <= j < i ==> alt_mode_reported(modes@[j], #[trigger] out@[j]),
        decreases modes.len() - i,
    {
        out.push(alt_mode_report(&modes[i]));
        i = i + 1;
    }
    out
}

/// One power data object as the report lists it.
pub struct PdoReport {
    pub kind: &'static str,
    pub voltage_mv: u32,
    pub current_ma: u32,
    pub power_mw: u32,
}

pub open spec fn pdo_reported(o: PowerOption, r: PdoReport) -> bool {
    &&& r.kind@ == o.kind.spec_label()
    &&& r.voltage_mv == o.voltage_mv
    &&& r.current_ma == o.max_current_ma
    &&& r.power_mw == o.max_power_mw
}

fn pdo_report(o: &PowerOption) -> (res: PdoReport)
    ensures
        pdo_reported(*o, res),
{
    PdoReport {
        kind: o.kind.label(),
        voltage_mv: o.voltage_mv,
        current_ma: o.max_current_ma,
        power_mw: o.max_power_mw,
    }
}

/// The live negotiated contract, in millivolts and milliamps.
pub struct NegotiatedReport {
    pub voltage_mv: u32,
    pub current_ma: u32,
}

/// A power source as the report lists it.
pub struct PowerSourceReport {
    pub name: String,
    pub max_power_mw: u32,
    pub options: Vec<PdoReport>,
    pub negotiated: Option<NegotiatedReport>,
    pub winning: Option<PdoReport>,
    pub usb_type: Option<String>,
}

pub open spec fn source_reported(s: PowerSource, r: PowerSourceReport) -> bool {
    &&& r.name@ == s.name@
    &&& r.max_power_mw == s.max_power_mw
    &&& r.options@.len() == s.options@.len()
    &&& forall|i: int|
        0 <= i < s.options@.len() ==> pdo_reported(s.options@[i], #[trigger] r.options@[i])
    &&& match (s.negotiated_mv, s.negotiated_ma) {
        (Some(mv), Some(ma)) => r.negotiated matches Some(n) && n.voltage_mv == mv && n.current_ma
            == ma,
        _ => r.negotiated is None,
    }
    &&& match s.winning {
        Some(w) => r.winning matches Some(x) && pdo_reported(w, x),
        None => r.winning is None,
    }
    &&& opt_view(r.usb_type) == opt_view(s.usb_type)
}

fn source_report(s: &PowerSource) -> (res: PowerSourceReport)
    ensures
        source_reported(*s, res),
{
    let mut options: Vec<PdoReport> = Vec::new();
    let mut i: usize = 0;
    while i < s.options.len()
        invariant
            i <= s.options@.len(),
            options@.len() == i,
            forall|j: int| 0 <= j < i ==> pdo_reported(s.options@[j], #[trigger] options@[j]),
        decreases s.options.len() - i,
    {
        options.push(pdo_report(&s.options[i]));
        i = i + 1;
    }
    let negotiated = match (s.negotiated_mv, s.negotiated_ma) {
        (Some(mv), Some(ma)) => Some(NegotiatedReport { voltage_mv: mv, current_ma: ma }),
        _ => None,
    };
    let winning = match &s.winning {
        Some(w) => Some(pdo_report(w)),
        None => None,
    };
    PowerSourceReport {
        name: owned(s.name.as_str()),
        max_power_mw: s.max_power_mw,
        options,
        negotiated,
        winning,
        usb_type: owned_opt(&s.usb_type),
    }
}

fn source_reports(sources: &Vec<&PowerSource>) -> (res: Vec<PowerSourceReport>)
    ensures
        res@.len() == sources@.len(),
        forall|i: int| 0 <= i < sources@.len() ==> source_reported(*sources@[i], #[trigger] res@[i]),
{
    let mut out: Vec<PowerSourceReport> = Vec::new();
    let mut i: usize = 0;
    while i < sources.len()
        invariant
            i <= sources@.len(),
            out@.len() == i,
            forall|j: int| 0 <= j < i ==> source_reported(*sources@[j], #[trigger] out@[j]),
        decreases sources.len() - i,
    {
        out.push(source_report(sources[i]));
        i = i + 1;
    }
    out
}

/// The cable e-marker as the report describes it.
pub struct CableReport {
    pub endpoint: &'static str,
    pub vendor_id: u16,
    pub vendor_id_hex: String,
    pub vendor_name: Option<&'static str>,
    pub speed: Option<&'static str>,
    pub current_rating: Option<&'static str>,
    pub max_volts: Option<u32>,
    pub max_watts: Option<u32>,
    pub cable_type: Option<&'static str>,
}

pub open spec fn opt_static(o: Option<&'static str>) -> Option<Seq<char>> {
    match o {
        Some(s) => Some(s@),
        None => None,
    }
}

pub open spec fn cable_kind(t: CableType) -> Seq<char> {
    if t == CableType::Active {
        "active"@
    } else {
        "passive"@
    }
}

pub open spec fn cable_reported(id: PdIdentity, r: CableReport) -> bool {
    &&& r.endpoint@ == id.endpoint.spec_as_str()
    &&& r.vendor_id == id.vendor_id
    &&& r.vendor_id_hex@ == prefixed_hex(id.vendor_id as nat, 4)
    &&& opt_static(r.vendor_name) == spec_name_for(id.vendor_id)
    &&& match id.cable_vdo {
        Some(cv) => {
            &&& opt_static(r.speed) == Some(cv.speed.spec_label())
            &&& opt_static(r.current_rating) == Some(cv.current.spec_label())
            &&& r.max_volts == Some(cv.max_volts)
            &&& r.max_watts == Some(cv.max_watts)
            &&& opt_static(r.cable_type) == Some(cable_kind(cv.cable_type))
        },
        None => {
            &&& r.speed is None
            &&& r.current_rating is None
            &&& r.max_volts is None
            &&& r.max_watts is None
            &&& r.cable_type is None
        },
    }
}

fn cable_report(id: &PdIdentity) -> (res: CableReport)
    ensures
        cable_reported(*id, res),
{
    let (speed, current_rating, max_volts, max_watts, cable_type) = match id.cable_vdo {
        Some(cv) => (
            Some(cv.speed.label()),
            Some(cv.current.label()),
            Some(cv.max_volts),
            Some(cv.max_watts),
            Some(
                if cv.cable_type == CableType::Active {
                    "active"
                } else {
                    "passive"
                },
            ),
        ),
        None => (None, None, None, None, None),
    };
    CableReport {
        endpoint: id.endpoint.as_str(),
        vendor_id: id.vendor_id,
        vendor_id_hex: prefixed_hex_string(id.vendor_id as u64, 4),
        vendor_name: name_for(id.vendor_id),
        speed,
        current_rating,
        max_volts,
        max_watts,
        cable_type,
    }
}

/// The connected partner as the report describes it.
pub struct DeviceReport {
    pub kind: Option<&'static str>,
    pub vendor_id: u16,
    pub vendor_id_hex: String,
    pub vendor_name: Option<&'static str>,
    pub product_id: u16,
}

pub open spec fn device_reported(id: PdIdentity, r: DeviceReport) -> bool {
    &&& opt_static(r.kind) == match id.id_header {
        Some(h) => Some(device_kind(h)),
        None => None::<Seq<char>>,
    }
    &&& r.vendor_id == id.vendor_id
    &&& r.vendor_id_hex@ == prefixed_hex(id.vendor_id as nat, 4)
    &&& opt_static(r.vendor_name) == spec_name_for(id.vendor_id)
    &&& r.product_id == id.product_id
}

fn kind_of(h: &IdHeader) -> (res: &'static str)
    ensures
        res@ == device_kind(*h),
{
    if h.ufp_product_type == crate::pdvdo::ProductType::Undefined {
        h.dfp_product_type.label()
    } else {
        h.ufp_product_type.label()
    }
}

fn device_report(id: &PdIdentity) -> (res: DeviceReport)
    ensures
        device_reported(*id, res),
{
    let kind = match &id.id_header {
        Some(h) => Some(kind_of(h)),
        None => None,
    };
    DeviceReport {
        kind,
        vendor_id: id.vendor_id,
        vendor_id_hex: prefixed_hex_string(id.vendor_id as u64, 4),
        vendor_name: name_for(id.vendor_id),
        product_id: id.product_id,
    }
}

/// The charging diagnostic as the report states it.
pub struct ChargingReport {
    pub summary: String,
    pub detail: String,
    pub bottleneck: &'static str,
    pub is_warning: bool,
}

/// Everything the report says about one port.
pub struct PortReport {
    pub name: String,
    pub connected: bool,
    pub data_role: Option<String>,
    pub power_role: Option<String>,
    pub power_operation_mode: Option<String>,
    pub typec_revision: Option<String>,
    pub pd_revision: Option<String>,
    pub status: &'static str,
    pub headline: String,
    pub subtitle: String,
    pub bullets: Vec<String>,
    pub alt_modes: Vec<AltModeReport>,
    pub power_sources: Vec<PowerSourceReport>,
    pub cable: Option<CableReport>,
    pub device: Option<DeviceReport>,
    pub charging: Option<ChargingReport>,
    pub raw: Option<Vec<(String, String)>>,
}

/// The report's account of an optional first identity from endpoint `e`.
pub open spec fn first_identity(ids: Seq<PdIdentity>, e: PdEndpoint) -> Option<PdIdentity> {
    let i = first_with(ids, e);
    if i >= 0 {
        Some(ids[i])
    } else {
        None
    }
}

pub open spec fn charging_reported(
    port: UsbcPort,
    s: Seq<PowerSource>,
    ids: Seq<PdIdentity>,
    r: Option<ChargingReport>,
) -> bool {
    if diagnoses(port, s) {
        let b = spec_bottleneck(s, ids);
        &&& r matches Some(c)
        &&& c.summary@ == spec_diag_summary(b)
        &&& c.detail@ == spec_diag_detail(b)
        &&& c.bottleneck@ == b.spec_label()
        &&& c.is_warning == spec_is_warning(b)
    } else {
        r is None
    }
}

fn copy_attrs(attrs: &Vec<(String, String)>) -> (res: Vec<(String, String)>)
    ensures
        res@.len() == attrs@.len(),
        forall|i: int|
            0 <= i < attrs@.len() ==> (#[trigger] res@[i]).0@ == attrs@[i].0@ && res@[i].1@
                == attrs@[i].1@,
{
    let mut out: Vec<(String, String)> = Vec::new();
    let mut i: usize = 0;
    while i < attrs.len()
        invariant
            i <= attrs@.len(),
            out@.len() == i,
            forall|j: int|
                0 <= j < i ==> (#[trigger] out@[j]).0@ == attrs@[j].0@ && out@[j].1@
                    == attrs@[j].1@,
        decreases attrs.len() - i,
    {
        let k = owned(attrs[i].0.as_str());
        let v = owned(attrs[i].1.as_str());
        out.push((k, v));
        i = i + 1;
    }
    out
}

fn charging_report(port: &UsbcPort, sources: &Vec<&PowerSource>, identities: &Vec<&PdIdentity>) -> (res: Option<ChargingReport>)
    requires
        diagnose_in_range(*port, derefs(sources@)),
    ensures
        charging_reported(*port, derefs(sources@), derefs(identities@), res),
{
    match diagnose(port, sources.as_slice(), identities.as_slice()) {
        Some(d) => {
            let label = d.bottleneck.label();
            Some(ChargingReport {
                summary: d.summary,
                detail: d.detail,
                bottleneck: label,
                is_warning: d.is_warning,
            })
        },
        None => None,
    }
}

/// What `port_dto` reports of a port, given the port's own sources,
/// identities and power texts.
pub open spec fn port_reported(
    port: UsbcPort,
    s: Seq<PowerSource>,
    ids: Seq<PdIdentity>,
    texts: Seq<PowerText>,
    show_raw: bool,
    r: PortReport,
) -> bool {
    &&& r.name@ == port.name@
    &&& r.connected == port.spec_connected()
    &&& opt_view(r.data_role) == opt_view(port.data_role)
    &&& opt_view(r.power_role) == opt_view(port.power_role)
    &&& opt_view(r.power_operation_mode) == opt_view(port.power_operation_mode)
    &&& opt_view(r.typec_revision) == opt_view(port.typec_revision)
    &&& opt_view(r.pd_revision) == opt_view(port.pd_revision)
    &&& r.status@ == spec_status(port, s, ids).spec_as_str()
    &&& r.headline@ == spec_headline(port, s, ids)
    &&& r.subtitle@ == spec_subtitle(port, s, ids)
    &&& views(r.bullets@) == spec_bullets(port, s, ids, texts)
    &&& r.alt_modes@.len() == port.alt_modes@.len()
    &&& forall|i: int|
        0 <= i < port.alt_modes@.len() ==> alt_mode_reported(
            port.alt_modes@[i],
            #[trigger] r.alt_modes@[i],
        )
    &&& r.power_sources@.len() == s.len()
    &&& forall|i: int| 0 <= i < s.len() ==> source_reported(s[i], #[trigger] r.power_sources@[i])
    &&& match first_identity(ids, PdEndpoint::SopPrime) {
        Some(c) => r.cable matches Some(x) && cable_reported(c, x),
        None => r.cable is None,
    }
    &&& match first_identity(ids, PdEndpoint::Sop) {
        Some(p) => r.device matches Some(x) && device_reported(p, x),
        None => r.device is None,
    }
    &&& charging_reported(port, s, ids, r.charging)
    &&& if show_raw {
        r.raw matches Some(v) && v@.len() == port.raw_attrs@.len() && forall|i: int|
            0 <= i < v@.len() ==> (#[trigger] v@[i]).0@ == port.raw_attrs@[i].0@ && v@[i].1@
                == port.raw_attrs@[i].1@
    } else {
        r.raw is None
    }
}

/// The report of one port of `snapshot`. `texts` holds, for each power
/// source of the snapshot, its figures as text.
pub fn port_dto(snapshot: &CableSnapshot, port: &UsbcPort, texts: &Vec<PowerText>, show_raw: bool) -> (res: PortReport)
    requires
        texts_fit(snapshot.power_sources@, texts@),
        summarize_in_range(sources_with_key(snapshot.power_sources@, port.port_key@)),
        diagnose_in_range(*port, sources_with_key(snapshot.power_sources@, port.port_key@)),
    ensures
        port_reported(
            *port,
            sources_with_key(snapshot.power_sources@, port.port_key@),
            identities_with_key(snapshot.identities@, port.port_key@),
            crate::text::texts_with_key(snapshot.power_sources@, texts@, port.port_key@),
            show_raw,
            res,
        ),
{
    let sources = snapshot.sources_for(port);
    let identities = snapshot.identities_for(port);
    let ts = crate::text::texts_for(snapshot, texts, port);
    proof {
        crate::text::lemma_texts_with_key(snapshot.power_sources@, texts@, port.port_key@);
    }
    let summary = summarize(port, sources.as_slice(), identities.as_slice(), ts.as_slice());
    let alt_modes = alt_mode_reports(&port.alt_modes);
    let power_sources = source_reports(&sources);
    let cable = match find_endpoint(identities.as_slice(), PdEndpoint::SopPrime) {
        Some(c) => Some(cable_report(identities[c])),
        None => None,
    };
    let device = match find_endpoint(identities.as_slice(), PdEndpoint::Sop) {
        Some(p) => Some(device_report(identities[p])),
        None => None,
    };
    let charging = charging_report(port, &sources, &identities);
    let raw = if show_raw {
        Some(copy_attrs(&port.raw_attrs))
    } else {
        None
    };
    let status = summary.status.as_str();
    PortReport {
        name: owned(port.name.as_str()),
        connected: port.connected(),
        data_role: owned_opt(&port.data_role),
        power_role: owned_opt(&port.power_role),
        power_operation_mode: owned_opt(&port.power_operation_mode),
        typec_revision: owned_opt(&port.typec_revision),
        pd_revision: owned_opt(&port.pd_revision),
        status,
        headline: summary.headline,
        subtitle: summary.subtitle,
        bullets: summary.bullets,
        alt_modes,
        power_sources,
        cable,
        device,
        charging,
        raw,
    }
}

/// The report of a port with a cable e-marker names the cable `active`
/// exactly when its first SOP' identity's cable VDO says so, and `passive`
/// otherwise.
pub proof fn law_cable_type_reported(
    port: UsbcPort,
    s: Seq<PowerSource>,
    ids: Seq<PdIdentity>,
    texts: Seq<PowerText>,
    show_raw: bool,
    r: PortReport,
    c: int,
    cv: CableVdo,
)
    requires
        port_reported(port, s, ids, texts, show_raw, r),
        0 <= c < ids.len(),
        ids[c].endpoint == PdEndpoint::SopPrime,
        forall|j: int| 0 <= j < c ==> (#[trigger] ids[j]).endpoint != PdEndpoint::SopPrime,
        ids[c].cable_vdo == Some(cv),
    ensures
        r.cable matches Some(x) && x.cable_type matches Some(t) && (t@ == "active"@ <==> cv.cable_type
            == CableType::Active) && (t@ == "passive"@ <==> cv.cable_type == CableType::Passive),
{
    crate::summary::lemma_first_with(ids, PdEndpoint::SopPrime, c);
    reveal_strlit("active");
    reveal_strlit("passive");
    assert("active"@ != "passive"@) by {
        assert("active"@[0] != "passive"@[0]);
    }
}

} // verus!
