//! Builds a `CableSnapshot` from what was read out of sysfs:
//! `/sys/class/typec`, `/sys/class/usb_power_delivery`,
//! `/sys/class/power_supply`, `/sys/bus/usb/devices` and
//! `/sys/bus/thunderbolt/devices`.
//!
//! The reads themselves happen elsewhere; they fill the `Raw*` records below
//! with the trimmed text of every attribute file (`None` for a missing
//! file), and everything that is decided from that text happens here.
use vstd::prelude::*;
use crate::pdvdo::{CableVdo, IdHeader, ProductVdo};
use crate::snapshot::{
    opt_view, AltMode, AltModeModel, CableSnapshot, IdentityModel, PdEndpoint, PdIdentity,
    PortModel, PowerOption, PowerOptionKind, PowerSource, SnapshotModel, SourceModel,
    ThunderboltDevice, TbDeviceModel, UsbDevice, UsbDeviceModel, UsbcPort,
};
use crate::strings::{chars_of, contains_char, owned, push_str, starts_with, str_eq};
use crate::strings::{dec, pad_zeros, push_padded};
use crate::order::{as_ints, nat_keys, order_by_nat, order_by_text, stable_order_text, stable_order_u64};
use crate::snapshot::spec_mw;
use crate::sysfs::{
    bracketed, find_char, index_of, parse_u64, parse_unsigned, parse_unsigned_chars, read_bracketed,
    read_hex_u32, read_mu_int, spec_parse_hex_u32, spec_read_mu_int,
};

verus! {

// ---------------------------------------------------------------------------
// What is read from sysfs
// ---------------------------------------------------------------------------

/// A `modeN` directory of an alternate mode.
#[derive(Debug, Clone)]
pub struct RawMode {
    pub name: String,
    pub active: Option<String>,
    pub vdo: Option<String>,
    pub description: Option<String>,
}

/// An entry of a port directory, read as if it were an alternate mode
/// (`portN.M`): its `svid` and its sub-entries.
#[derive(Debug, Clone)]
pub struct RawAltDir {
    pub name: String,
    pub svid: Option<String>,
    pub modes: Vec<RawMode>,
}

/// The files of an `identity` directory that exists.
#[derive(Debug, Clone)]
pub struct RawIdentity {
    pub id_header: Option<String>,
    pub cert_stat: Option<String>,
    pub product: Option<String>,
    pub product_type_vdo1: Option<String>,
    pub product_type_vdo2: Option<String>,
    pub product_type_vdo3: Option<String>,
}

/// An entry of `source-capabilities`, such as `1:fixed_supply`.
#[derive(Debug, Clone)]
pub struct RawPdo {
    pub entry: String,
    pub voltage: Option<String>,
    pub maximum_voltage: Option<String>,
    pub maximum_current: Option<String>,
    pub operational_current: Option<String>,
    pub maximum_power: Option<String>,
}

/// The partner's `usb_power_delivery` link, resolved: the file name of its
/// target (when it is valid text) and its `source-capabilities` entries
/// (when that directory exists).
#[derive(Debug, Clone)]
pub struct RawPdLink {
    pub name: Option<String>,
    pub source_capabilities: Option<Vec<RawPdo>>,
}

/// An entry of `/sys/class/typec`, with what would be read for it if it is a
/// port: its own attributes (`port_attr_names`), its `-partner` and `-cable`
/// siblings (`partner_attr_names`, `cable_attr_names`), its sub-entries, the
/// two identity directories and the partner's PD link.
#[derive(Debug, Clone)]
pub struct RawTypecEntry {
    pub name: String,
    pub port_attrs: Vec<Option<String>>,
    pub partner_present: bool,
    pub partner_attrs: Vec<Option<String>>,
    pub cable_present: bool,
    pub cable_attrs: Vec<Option<String>>,
    pub alt_dirs: Vec<RawAltDir>,
    pub partner_identity: Option<RawIdentity>,
    pub cable_identity: Option<RawIdentity>,
    pub pd_link: Option<RawPdLink>,
}

/// An entry of `/sys/class/power_supply`.
#[derive(Debug, Clone)]
pub struct RawSupply {
    pub name: String,
    pub online: Option<String>,
    pub voltage_now: Option<String>,
    pub current_now: Option<String>,
    pub usb_type: Option<String>,
}

/// An entry of `/sys/bus/usb/devices`.
#[derive(Debug, Clone)]
pub struct RawUsbDevice {
    pub name: String,
    pub busnum: Option<String>,
    pub devnum: Option<String>,
    pub speed: Option<String>,
    pub id_vendor: Option<String>,
    pub id_product: Option<String>,
    pub manufacturer: Option<String>,
    pub product: Option<String>,
}

/// An entry of `/sys/bus/thunderbolt/devices`.
#[derive(Debug, Clone)]
pub struct RawTbDevice {
    pub name: String,
    pub vendor_name: Option<String>,
    pub device_name: Option<String>,
    pub authorized: Option<String>,
}

/// Everything read from sysfs for one snapshot; the device lists are `None`
/// when their root directory does not exist.
#[derive(Debug, Clone)]
pub struct RawSysfs {
    pub typec: Vec<RawTypecEntry>,
    pub supplies: Vec<RawSupply>,
    pub usb_devices: Option<Vec<RawUsbDevice>>,
    pub thunderbolt_devices: Option<Vec<RawTbDevice>>,
}

pub open spec fn spec_port_attr_names() -> Seq<Seq<char>> {
    seq![
        "data_role"@,
        "power_role"@,
        "port_type"@,
        "vconn_source"@,
        "power_operation_mode"@,
        "preferred_role"@,
        "orientation"@,
        "usb_power_delivery_revision"@,
        "usb_typec_revision"@,
        "supported_accessory_modes"@,
        "usb_capability"@,
    ]
}

pub open spec fn spec_partner_attr_names() -> Seq<Seq<char>> {
    seq![
        "supports_usb_power_delivery"@,
        "accessory_mode"@,
        "usb_power_delivery_revision"@,
        "number_of_alternate_modes"@,
        "type"@,
        "usb_mode"@,
    ]
}

pub open spec fn spec_cable_attr_names() -> Seq<Seq<char>> {
    seq!["type"@, "plug_type"@, "usb_power_delivery_revision"@]
}

/// The attribute files of a port directory, in the order `port_attrs` holds them.
pub fn port_attr_names() -> (res: Vec<&'static str>)
    ensures
        res@.map_values(|s: &str| s@) == spec_port_attr_names(),
{
    let v = vec![
        "data_role",
        "power_role",
        "port_type",
        "vconn_source",
        "power_operation_mode",
        "preferred_role",
        "orientation",
        "usb_power_delivery_revision",
        "usb_typec_revision",
        "supported_accessory_modes",
        "usb_capability",
    ];
    assert(v@.map_values(|s: &str| s@) =~= spec_port_attr_names());
    v
}

/// The attribute files of a `-partner` directory, in the order `partner_attrs` holds them.
pub fn partner_attr_names() -> (res: Vec<&'static str>)
    ensures
        res@.map_values(|s: &str| s@) == spec_partner_attr_names(),
{
    let v = vec![
        "supports_usb_power_delivery",
        "accessory_mode",
        "usb_power_delivery_revision",
        "number_of_alternate_modes",
        "type",
        "usb_mode",
    ];
    assert(v@.map_values(|s: &str| s@) =~= spec_partner_attr_names());
    v
}

/// The attribute files of a `-cable` directory, in the order `cable_attrs` holds them.
pub fn cable_attr_names() -> (res: Vec<&'static str>)
    ensures
        res@.map_values(|s: &str| s@) == spec_cable_attr_names(),
{
    let v = vec!["type", "plug_type", "usb_power_delivery_revision"];
    assert(v@.map_values(|s: &str| s@) =~= spec_cable_attr_names());
    v
}

// ---------------------------------------------------------------------------
// Ports
// ---------------------------------------------------------------------------

/// The `i`-th value of `v`; `None` past its end.
pub open spec fn attr(v: Seq<Option<String>>, i: int) -> Option<Seq<char>> {
    if 0 <= i < v.len() {
        opt_view(v[i])
    } else {
        None
    }
}

fn get_attr(v: &Vec<Option<String>>, i: usize) -> (res: Option<&str>)
    ensures
        match res {
            Some(s) => attr(v@, i as int) == Some(s@),
            None => attr(v@, i as int) is None,
        },
{
    if i < v.len() {
        match &v[i] {
            Some(s) => Some(s.as_str()),
            None => None,
        }
    } else {
        None
    }
}

fn clone_attr(v: &Vec<Option<String>>, i: usize) -> (res: Option<String>)
    ensures
        opt_view(res) == attr(v@, i as int),
{
    match get_attr(v, i) {
        Some(s) => Some(owned(s)),
        None => None,
    }
}

pub open spec fn begins_with(s: Seq<char>, p: Seq<char>) -> bool {
    p.len() <= s.len() && s.take(p.len() as int) == p
}

/// A top-level port entry: `portN`, not `portN-partner` or `portN-cable`.
pub open spec fn is_port_entry(name: Seq<char>) -> bool {
    begins_with(name, "port"@) && !name.contains('-')
}

/// `(name, value)` for each name whose value was read, names prefixed.
pub open spec fn named_attrs(
    names: Seq<Seq<char>>,
    vals: Seq<Option<String>>,
    prefix: Seq<char>,
) -> Seq<(Seq<char>, Seq<char>)>
    decreases names.len(),
{
    if names.len() == 0 {
        seq![]
    } else {
        let i = names.len() - 1;
        named_attrs(names.drop_last(), vals, prefix) + match attr(vals, i) {
            Some(v) => seq![(prefix + names[i], v)],
            None => seq![],
        }
    }
}

/// Whether `partner/supports_usb_power_delivery` says yes.
pub open spec fn yes_or_one(v: Seq<char>) -> bool {
    v == "yes"@ || v == "1"@
}

/// An entry of a port directory that is an alternate mode (`portN.M`).
pub open spec fn is_alt_dir(name: Seq<char>) -> bool {
    begins_with(name, "port"@) && name.contains('.')
}

pub open spec fn is_mode_entry(m: RawMode) -> bool {
    begins_with(m.name@, "mode"@)
}

pub open spec fn mode_active(m: RawMode) -> bool {
    m.active matches Some(a) && a@ == "yes"@
}

pub open spec fn opt_hex(o: Option<Seq<char>>) -> Option<nat> {
    match o {
        Some(s) => spec_parse_hex_u32(s),
        None => None,
    }
}

pub open spec fn mode_vdo(m: RawMode) -> u32 {
    match opt_hex(opt_view(m.vdo)) {
        Some(v) => v as u32,
        None => 0,
    }
}

/// Index of the first active mode entry, or -1.
pub open spec fn first_active_mode(modes: Seq<RawMode>) -> int
    decreases modes.len(),
{
    if modes.len() == 0 {
        -1
    } else if is_mode_entry(modes[0]) && mode_active(modes[0]) {
        0
    } else {
        let r = first_active_mode(modes.drop_first());
        if r < 0 {
            -1
        } else {
            r + 1
        }
    }
}

/// Index of the last mode entry, or -1.
pub open spec fn last_mode(modes: Seq<RawMode>) -> int
    decreases modes.len(),
{
    if modes.len() == 0 {
        -1
    } else if is_mode_entry(modes.last()) {
        modes.len() - 1
    } else {
        last_mode(modes.drop_last())
    }
}

/// The mode an alternate mode reports: the first active one, else the last.
pub open spec fn picked_mode(modes: Seq<RawMode>) -> int {
    if first_active_mode(modes) >= 0 {
        first_active_mode(modes)
    } else {
        last_mode(modes)
    }
}

pub open spec fn alt_from_dir(d: RawAltDir) -> Option<AltModeModel> {
    if !is_alt_dir(d.name@) {
        None
    } else {
        match opt_hex(opt_view(d.svid)) {
            None => None,
            Some(v) => {
                let k = picked_mode(d.modes@);
                if k < 0 {
                    Some(AltModeModel { svid: v as u16, vdo: 0, active: false, description: None })
                } else {
                    let m = d.modes@[k];
                    Some(
                        AltModeModel {
                            svid: v as u16,
                            vdo: mode_vdo(m),
                            active: mode_active(m),
                            description: opt_view(m.description),
                        },
                    )
                }
            },
        }
    }
}

pub open spec fn spec_alt_modes(dirs: Seq<RawAltDir>) -> Seq<AltModeModel>
    decreases dirs.len(),
{
    if dirs.len() == 0 {
        seq![]
    } else {
        spec_alt_modes(dirs.drop_last()) + match alt_from_dir(dirs.last()) {
            Some(m) => seq![m],
            None => seq![],
        }
    }
}

/// The port that `read_one_port` builds from an entry.
pub open spec fn spec_port(e: RawTypecEntry) -> PortModel {
    let pa = e.port_attrs@;
    let ca = e.cable_attrs@;
    PortModel {
        port_key: e.name@,
        name: e.name@,
        data_role: match attr(pa, 0) {
            Some(v) => Some(bracketed(v)),
            None => None,
        },
        power_role: match attr(pa, 1) {
            Some(v) => Some(bracketed(v)),
            None => None,
        },
        power_operation_mode: attr(pa, 4),
        typec_revision: attr(pa, 8),
        pd_revision: attr(pa, 7),
        partner_present: e.partner_present,
        partner_supports_pd: match attr(e.partner_attrs@, 0) {
            Some(v) => Some(yes_or_one(v)),
            None => None,
        },
        partner_pd_revision: attr(e.partner_attrs@, 2),
        cable_present: e.cable_present,
        cable_type: attr(ca, 0),
        alt_modes: spec_alt_modes(e.alt_dirs@),
        raw_attrs: named_attrs(spec_port_attr_names(), pa, Seq::empty()) + (if e.partner_present {
            named_attrs(spec_partner_attr_names(), e.partner_attrs@, "partner/"@)
        } else {
            seq![]
        }) + (if e.cable_present {
            named_attrs(spec_cable_attr_names(), ca, "cable/"@)
        } else {
            seq![]
        }),
    }
}

proof fn lemma_first_active(modes: Seq<RawMode>, i: int)
    requires
        0 <= i <= modes.len(),
        forall|j: int|
            0 <= j < i ==> !(is_mode_entry(#[trigger] modes[j]) && mode_active(modes[j])),
        i < modes.len() ==> is_mode_entry(modes[i]) && mode_active(modes[i]),
    ensures
        first_active_mode(modes) == (if i < modes.len() {
            i
        } else {
            -1
        }),
    decreases i,
{
    if modes.len() > 0 && i > 0 {
        let t = modes.drop_first();
        assert forall|j: int|
            0 <= j < i - 1 implies !(is_mode_entry(#[trigger] t[j]) && mode_active(t[j])) by {
            assert(t[j] == modes[j + 1]);
        }
        lemma_first_active(t, i - 1);
    }
}

proof fn lemma_last_mode_step(modes: Seq<RawMode>, i: int)
    requires
        0 <= i < modes.len(),
    ensures
        last_mode(modes.take(i + 1)) == (if is_mode_entry(modes[i]) {
            i
        } else {
            last_mode(modes.take(i))
        }),
{
    assert(modes.take(i + 1).drop_last() =~= modes.take(i));
}

proof fn lemma_last_mode(modes: Seq<RawMode>)
    ensures
        last_mode(modes) < modes.len(),
        last_mode(modes) >= 0 ==> is_mode_entry(modes[last_mode(modes)]),
    decreases modes.len(),
{
    if modes.len() > 0 && !is_mode_entry(modes.last()) {
        lemma_last_mode(modes.drop_last());
    }
}

/// The (vdo, active, description) of the mode an alternate mode reports.
fn choose_mode(modes: &Vec<RawMode>) -> (res: (u32, bool, Option<String>))
    ensures
        picked_mode(modes@) < 0 ==> res.0 == 0 && !res.1 && res.2 is None,
        picked_mode(modes@) >= 0 ==> {
            let m = modes@[picked_mode(modes@)];
            &&& res.0 == mode_vdo(m)
            &&& res.1 == mode_active(m)
            &&& opt_view(res.2) == opt_view(m.description)
        },
{
    let mut chosen_vdo: u32 = 0;
    let mut chosen_active = false;
    let mut chosen_desc: Option<String> = None;
    let mut i: usize = 0;
    assert(modes@.take(0) =~= Seq::<RawMode>::empty());
    while i < modes.len()
        invariant
            i <= modes@.len(),
            !chosen_active,
            forall|j: int|
                0 <= j < i ==> !(is_mode_entry(#[trigger] modes@[j]) && mode_active(modes@[j])),
            last_mode(modes@.take(i as int)) < 0 ==> chosen_vdo == 0 && chosen_desc is None,
            last_mode(modes@.take(i as int)) >= 0 ==> {
                let m = modes@[last_mode(modes@.take(i as int))];
                &&& chosen_vdo == mode_vdo(m)
                &&& opt_view(chosen_desc) == opt_view(m.description)
            },
            last_mode(modes@.take(i as int)) < i,
        decreases modes.len() - i,
    {
        let m = &modes[i];
        proof {
            lemma_last_mode_step(modes@, i as int);
        }
        let name = chars_of(m.name.as_str());
        if starts_with(&name, "mode") {
            let active = match &m.active {
                Some(a) => str_eq(a.as_str(), "yes"),
                None => false,
            };
            let vdo = match read_hex_u32(
                match &m.vdo {
                    Some(v) => Some(v.as_str()),
                    None => None,
                },
            ) {
                Some(v) => v,
                None => 0,
            };
            let desc = match &m.description {
                Some(d) => Some(owned(d.as_str())),
                None => None,
            };
            if active {
                proof {
                    lemma_first_active(modes@, i as int);
                }
                return (vdo, true, desc);
            }
            chosen_vdo = vdo;
            chosen_desc = desc;
        }
        i = i + 1;
    }
    proof {
        lemma_first_active(modes@, i as int);
        assert(modes@.take(i as int) =~= modes@);
        lemma_last_mode(modes@);
    }
    (chosen_vdo, chosen_active, chosen_desc)
}

fn alt_mode_of(d: &RawAltDir) -> (res: Option<AltMode>)
    ensures
        match alt_from_dir(*d) {
            Some(m) => res matches Some(r) && r@ == m,
            None => res is None,
        },
{
    let name = chars_of(d.name.as_str());
    if !(starts_with(&name, "port") && contains_char(&name, '.')) {
        return None;
    }
    let svid = match read_hex_u32(
        match &d.svid {
            Some(v) => Some(v.as_str()),
            None => None,
        },
    ) {
        Some(v) => v as u16,
        None => {
            return None;
        },
    };
    let (vdo, active, description) = choose_mode(&d.modes);
    Some(AltMode { svid, vdo, active, description })
}

fn alt_modes_of(dirs: &Vec<RawAltDir>) -> (res: Vec<AltMode>)
    ensures
        res@.map_values(|m: AltMode| m@) == spec_alt_modes(dirs@),
{
    let mut out: Vec<AltMode> = Vec::new();
    let mut i: usize = 0;
    while i < dirs.len()
        invariant
            i <= dirs@.len(),
            out@.map_values(|m: AltMode| m@) == spec_alt_modes(dirs@.take(i as int)),
        decreases dirs.len() - i,
    {
        assert(dirs@.take(i + 1).drop_last() =~= dirs@.take(i as int));
        match alt_mode_of(&dirs[i]) {
            Some(m) => {
                out.push(m);
            },
            None => {},
        }
        i = i + 1;
        assert(out@.map_values(|m: AltMode| m@) =~= spec_alt_modes(dirs@.take(i as int)));
    }
    assert(dirs@.take(i as int) =~= dirs@);
    out
}

fn push_named_attrs(
    out: &mut Vec<(String, String)>,
    names: &Vec<&'static str>,
    vals: &Vec<Option<String>>,
    prefix: &str,
)
    ensures
        final(out)@.map_values(|p: (String, String)| (p.0@, p.1@)) == old(out)@.map_values(
            |p: (String, String)| (p.0@, p.1@),
        ) + named_attrs(names@.map_values(|s: &str| s@), vals@, prefix@),
{
    let ghost start = out@.map_values(|p: (String, String)| (p.0@, p.1@));
    let ghost ns = names@.map_values(|s: &str| s@);
    let mut i: usize = 0;
    while i < names.len()
        invariant
            i <= names@.len(),
            ns == names@.map_values(|s: &str| s@),
            out@.map_values(|p: (String, String)| (p.0@, p.1@)) == start + named_attrs(
                ns.take(i as int),
                vals@,
                prefix@,
            ),
        decreases names.len() - i,
    {
        assert(ns.take(i + 1).drop_last() =~= ns.take(i as int));
        let ghost before = out@.map_values(|p: (String, String)| (p.0@, p.1@));
        match get_attr(vals, i) {
            Some(v) => {
                let mut key = owned(prefix);
                push_str(&mut key, names[i]);
                out.push((key, owned(v)));
                assert(out@.map_values(|p: (String, String)| (p.0@, p.1@)) =~= before.push(
                    (prefix@ + ns[i as int], v@),
                ));
            },
            None => {},
        }
        i = i + 1;
        assert(out@.map_values(|p: (String, String)| (p.0@, p.1@)) =~= start + named_attrs(
            ns.take(i as int),
            vals@,
            prefix@,
        ));
    }
    assert(ns.take(i as int) =~= ns);
}

/// The port a typec entry describes: its attributes, roles, alternate modes
/// and raw attribute list.
pub fn build_port(e: &RawTypecEntry) -> (res: UsbcPort)
    ensures
        res@ == spec_port(*e),
{
    let alt_modes = alt_modes_of(&e.alt_dirs);
    let mut raw: Vec<(String, String)> = Vec::new();
    assert(raw@.map_values(|p: (String, String)| (p.0@, p.1@)) =~= Seq::<
        (Seq<char>, Seq<char>),
    >::empty());
    push_named_attrs(&mut raw, &port_attr_names(), &e.port_attrs, "");
    assert(""@ =~= Seq::<char>::empty()) by {
        reveal_strlit("");
    }
    if e.partner_present {
        push_named_attrs(&mut raw, &partner_attr_names(), &e.partner_attrs, "partner/");
    }
    if e.cable_present {
        push_named_attrs(&mut raw, &cable_attr_names(), &e.cable_attrs, "cable/");
    }
    let partner_supports_pd = match get_attr(&e.partner_attrs, 0) {
        Some(v) => Some(str_eq(v, "yes") || str_eq(v, "1")),
        None => None,
    };
    let port = UsbcPort {
        port_key: owned(e.name.as_str()),
        name: owned(e.name.as_str()),
        data_role: read_bracketed(get_attr(&e.port_attrs, 0)),
        power_role: read_bracketed(get_attr(&e.port_attrs, 1)),
        power_operation_mode: clone_attr(&e.port_attrs, 4),
        typec_revision: clone_attr(&e.port_attrs, 8),
        pd_revision: clone_attr(&e.port_attrs, 7),
        partner_present: e.partner_present,
        partner_supports_pd,
        partner_pd_revision: clone_attr(&e.partner_attrs, 2),
        cable_present: e.cable_present,
        cable_type: clone_attr(&e.cable_attrs, 0),
        alt_modes,
        raw_attrs: raw,
    };
    assert(port@.raw_attrs =~= spec_port(*e).raw_attrs);
    assert(port@ == spec_port(*e));
    port
}


// ---------------------------------------------------------------------------
// PD identities
// ---------------------------------------------------------------------------

pub open spec fn labeled(label: Seq<char>, v: Option<String>) -> Seq<Seq<char>> {
    match v {
        Some(s) => seq![label + "="@ + s@],
        None => seq![],
    }
}

/// The `label=value` texts of the identity files that were read.
pub open spec fn spec_vdos_hex(r: RawIdentity) -> Seq<Seq<char>> {
    labeled("id_header"@, r.id_header) + labeled("cert_stat"@, r.cert_stat) + labeled(
        "product"@,
        r.product,
    ) + labeled("product_type_vdo1"@, r.product_type_vdo1) + labeled(
        "product_type_vdo2"@,
        r.product_type_vdo2,
    ) + labeled("product_type_vdo3"@, r.product_type_vdo3)
}

/// The identity `read_identity` builds from an identity directory; `None`
/// when neither the ID Header, the Product VDO nor (for a cable) the cable
/// VDO can be decoded.
pub open spec fn spec_identity(
    r: RawIdentity,
    key: Seq<char>,
    e: PdEndpoint,
    active_cable: bool,
) -> Option<IdentityModel> {
    let ih = match opt_hex(opt_view(r.id_header)) {
        Some(v) => Some(IdHeader::spec_decode(v as u32)),
        None => None,
    };
    let pv = match opt_hex(opt_view(r.product)) {
        Some(v) => Some(ProductVdo::spec_decode(v as u32)),
        None => None,
    };
    let cv = if e == PdEndpoint::SopPrime {
        match opt_hex(opt_view(r.product_type_vdo1)) {
            Some(v) => Some(CableVdo::spec_decode(v as u32, active_cable)),
            None => None,
        }
    } else {
        None
    };
    if ih is None && pv is None && cv is None {
        None
    } else {
        Some(
            IdentityModel {
                port_key: key,
                endpoint: e,
                vendor_id: match ih {
                    Some(h) => h.vendor_id,
                    None => 0,
                },
                product_id: match pv {
                    Some(p) => p.product_id,
                    None => 0,
                },
                id_header: ih,
                product_vdo: pv,
                cable_vdo: cv,
                vdos_hex: spec_vdos_hex(r),
            },
        )
    }
}

pub open spec fn opt_seq<T>(o: Option<T>) -> Seq<T> {
    match o {
        Some(x) => seq![x],
        None => seq![],
    }
}

/// The cable says it is active.
pub open spec fn active_cable(e: RawTypecEntry) -> bool {
    attr(e.cable_attrs@, 0) == Some("active"@)
}

/// The identities of one port: partner (SOP) first, then cable (SOP').
pub open spec fn spec_port_identities(e: RawTypecEntry) -> Seq<IdentityModel> {
    opt_seq(
        match e.partner_identity {
            Some(r) => spec_identity(r, e.name@, PdEndpoint::Sop, false),
            None => None,
        },
    ) + opt_seq(
        match e.cable_identity {
            Some(r) => spec_identity(r, e.name@, PdEndpoint::SopPrime, active_cable(e)),
            None => None,
        },
    )
}

fn opt_str(o: &Option<String>) -> (res: Option<&str>)
    ensures
        match res {
            Some(s) => opt_view(*o) == Some(s@),
            None => o is None,
        },
{
    match o {
        Some(s) => Some(s.as_str()),
        None => None,
    }
}

fn push_labeled(out: &mut Vec<String>, label: &str, v: &Option<String>)
    ensures
        final(out)@.map_values(|s: String| s@) == old(out)@.map_values(|s: String| s@) + labeled(
            label@,
            *v,
        ),
{
    let ghost before = out@.map_values(|s: String| s@);
    match v {
        Some(x) => {
            let mut t = owned(label);
            push_str(&mut t, "=");
            push_str(&mut t, x.as_str());
            out.push(t);
        },
        None => {},
    }
    assert(out@.map_values(|s: String| s@) =~= before + labeled(label@, *v));
}

/// The identity an identity directory describes (`read_identity`).
pub fn build_identity(r: &RawIdentity, key: &str, e: PdEndpoint, active: bool) -> (res: Option<
    PdIdentity,
>)
    ensures
        match spec_identity(*r, key@, e, active) {
            Some(m) => res matches Some(x) && x@ == m,
            None => res is None,
        },
{
    let id_header = match read_hex_u32(opt_str(&r.id_header)) {
        Some(v) => Some(IdHeader::decode(v)),
        None => None,
    };
    let product_vdo = match read_hex_u32(opt_str(&r.product)) {
        Some(v) => Some(ProductVdo::decode(v)),
        None => None,
    };
    let cable_vdo = if e == PdEndpoint::SopPrime {
        match read_hex_u32(opt_str(&r.product_type_vdo1)) {
            Some(v) => Some(CableVdo::decode(v, active)),
            None => None,
        }
    } else {
        None
    };
    if id_header.is_none() && product_vdo.is_none() && cable_vdo.is_none() {
        return None;
    }
    let mut vdos_hex: Vec<String> = Vec::new();
    assert(vdos_hex@.map_values(|s: String| s@) =~= Seq::<Seq<char>>::empty());
    push_labeled(&mut vdos_hex, "id_header", &r.id_header);
    push_labeled(&mut vdos_hex, "cert_stat", &r.cert_stat);
    push_labeled(&mut vdos_hex, "product", &r.product);
    push_labeled(&mut vdos_hex, "product_type_vdo1", &r.product_type_vdo1);
    push_labeled(&mut vdos_hex, "product_type_vdo2", &r.product_type_vdo2);
    push_labeled(&mut vdos_hex, "product_type_vdo3", &r.product_type_vdo3);
    let id = PdIdentity {
        port_key: owned(key),
        endpoint: e,
        vendor_id: match id_header {
            Some(h) => h.vendor_id,
            None => 0,
        },
        product_id: match product_vdo {
            Some(p) => p.product_id,
            None => 0,
        },
        id_header,
        product_vdo,
        cable_vdo,
        vdos_hex,
    };
    assert(id@.vdos_hex =~= spec_vdos_hex(*r));
    Some(id)
}

/// The identities of one port entry (`read_identities`, for one port).
fn push_port_identities(out: &mut Vec<PdIdentity>, e: &RawTypecEntry)
    ensures
        final(out)@.map_values(|x: PdIdentity| x@) == old(out)@.map_values(|x: PdIdentity| x@)
            + spec_port_identities(*e),
{
    let ghost start = out@.map_values(|x: PdIdentity| x@);
    match &e.partner_identity {
        Some(r) => match build_identity(r, e.name.as_str(), PdEndpoint::Sop, false) {
            Some(id) => {
                out.push(id);
            },
            None => {},
        },
        None => {},
    }
    let ghost mid = out@.map_values(|x: PdIdentity| x@);
    assert(mid =~= start + opt_seq(
        match e.partner_identity {
            Some(r) => spec_identity(r, e.name@, PdEndpoint::Sop, false),
            None => None,
        },
    ));
    let active = match get_attr(&e.cable_attrs, 0) {
        Some(t) => str_eq(t, "active"),
        None => false,
    };
    match &e.cable_identity {
        Some(r) => match build_identity(r, e.name.as_str(), PdEndpoint::SopPrime, active) {
            Some(id) => {
                out.push(id);
            },
            None => {},
        },
        None => {},
    }
    assert(out@.map_values(|x: PdIdentity| x@) =~= start + spec_port_identities(*e));
}


// ---------------------------------------------------------------------------
// Power sources
// ---------------------------------------------------------------------------

/// Text before the first `:` (all of it if there is none).
pub open spec fn before_colon(s: Seq<char>) -> Seq<char> {
    let i = index_of(s, ':');
    if i < 0 {
        s
    } else {
        s.take(i)
    }
}

/// The number a capability entry such as `3:fixed_supply` is sorted by.
pub open spec fn pdo_index(entry: Seq<char>) -> nat {
    match parse_unsigned(before_colon(entry), 10, u32::MAX as nat) {
        Some(v) => v,
        None => 0,
    }
}

pub open spec fn pdo_kind(kind: Seq<char>) -> Option<PowerOptionKind> {
    if kind == "fixed_supply"@ {
        Some(PowerOptionKind::Fixed)
    } else if kind == "variable_supply"@ {
        Some(PowerOptionKind::Variable)
    } else if kind == "battery"@ {
        Some(PowerOptionKind::Battery)
    } else if kind == "programmable_supply"@ {
        Some(PowerOptionKind::Pps)
    } else {
        None
    }
}

pub open spec fn mu_or(a: Option<String>, b: Option<String>) -> Option<int> {
    match spec_read_mu_int(opt_view(a)) {
        Some(v) => Some(v),
        None => spec_read_mu_int(opt_view(b)),
    }
}

/// The option `parse_pdo` reads from a capability directory of kind `kind`.
pub open spec fn spec_parse_pdo(p: RawPdo, kind: PowerOptionKind) -> Option<PowerOption> {
    match mu_or(p.voltage, p.maximum_voltage) {
        None => None,
        Some(v) => {
            let c = match mu_or(p.maximum_current, p.operational_current) {
                Some(c) => if c >= 0 {
                    c
                } else {
                    0
                },
                None => 0,
            };
            let mv = v as u32;
            let ma = c as u32;
            let power = if kind != PowerOptionKind::Fixed && spec_read_mu_int(
                opt_view(p.maximum_power),
            ) is Some {
                spec_read_mu_int(opt_view(p.maximum_power))->0 as u32
            } else {
                spec_mw(mv, ma)
            };
            Some(PowerOption { voltage_mv: mv, max_current_ma: ma, max_power_mw: power, kind })
        },
    }
}

/// The option a capability entry gives: entries without `:` or of an
/// unknown kind give none.
pub open spec fn spec_pdo_option(p: RawPdo) -> Option<PowerOption> {
    let e = p.entry@;
    let i = index_of(e, ':');
    if i < 0 {
        None
    } else {
        match pdo_kind(e.skip(i + 1)) {
            Some(k) => spec_parse_pdo(p, k),
            None => None,
        }
    }
}

pub open spec fn pdo_keys(pdos: Seq<RawPdo>) -> Seq<nat> {
    pdos.map_values(|p: RawPdo| pdo_index(p.entry@))
}

/// The options of a source, entries taken in the order of their numbers.
pub open spec fn spec_options(pdos: Seq<RawPdo>) -> Seq<PowerOption> {
    options_in_order(pdos, order_by_nat(pdo_keys(pdos), pdos.len() as int))
}

pub open spec fn options_in_order(pdos: Seq<RawPdo>, order: Seq<int>) -> Seq<PowerOption>
    decreases order.len(),
{
    if order.len() == 0 {
        seq![]
    } else {
        options_in_order(pdos, order.drop_last()) + opt_seq(spec_pdo_option(pdos[order.last()]))
    }
}

/// The largest advertised power, 0 for none.
pub open spec fn max_power(opts: Seq<PowerOption>) -> u32
    decreases opts.len(),
{
    if opts.len() == 0 {
        0
    } else {
        let m = max_power(opts.drop_last());
        if opts.last().max_power_mw > m {
            opts.last().max_power_mw
        } else {
            m
        }
    }
}

/// `s` with every leading `port` removed.
pub open spec fn strip_port(s: Seq<char>) -> Seq<char>
    decreases s.len(),
{
    if s.len() >= 4 && s.take(4) == "port"@ {
        strip_port(s.skip(4))
    } else {
        s
    }
}

/// The number of a port key (`port3` is 3); 0 when it has none.
pub open spec fn port_index(name: Seq<char>) -> nat {
    match parse_unsigned(strip_port(name), 10, u32::MAX as nat) {
        Some(v) => v,
        None => 0,
    }
}

/// The UCSI power-supply suffix of a port: connectors count from 1, so
/// `port0` is `:001`.
pub open spec fn ucsi_suffix(name: Seq<char>) -> Seq<char> {
    ":"@ + pad_zeros(dec(port_index(name) + 1), 3)
}

pub open spec fn ends_with(s: Seq<char>, t: Seq<char>) -> bool {
    t.len() <= s.len() && s.skip(s.len() - t.len()) == t
}

pub open spec fn is_ucsi_supply(sup: RawSupply, suffix: Seq<char>) -> bool {
    begins_with(sup.name@, "ucsi-source-psy"@) && ends_with(sup.name@, suffix)
}

/// Index of the first UCSI supply with the given suffix, or -1.
pub open spec fn first_supply(sups: Seq<RawSupply>, suffix: Seq<char>) -> int
    decreases sups.len(),
{
    if sups.len() == 0 {
        -1
    } else if is_ucsi_supply(sups[0], suffix) {
        0
    } else {
        let r = first_supply(sups.drop_first(), suffix);
        if r < 0 {
            -1
        } else {
            r + 1
        }
    }
}

/// Microvolts or microamps as milli-units.
pub open spec fn milli(o: Option<String>) -> Option<u32> {
    match o {
        Some(t) => match parse_unsigned(t@, 10, u64::MAX as nat) {
            Some(u) => Some((u / 1000) as u32),
            None => None,
        },
        None => None,
    }
}

/// What `read_ucsi_for_port` reports: millivolts, milliamps, `usb_type`
/// and whether the supply is online.
pub ghost struct UcsiReading {
    pub mv: Option<u32>,
    pub ma: Option<u32>,
    pub usb_type: Option<Seq<char>>,
    pub online: Option<bool>,
}

pub open spec fn spec_ucsi(name: Seq<char>, sups: Seq<RawSupply>) -> UcsiReading {
    let k = first_supply(sups, ucsi_suffix(name));
    if k < 0 {
        UcsiReading { mv: None, ma: None, usb_type: None, online: None }
    } else {
        let s = sups[k];
        UcsiReading {
            mv: milli(s.voltage_now),
            ma: milli(s.current_now),
            usb_type: opt_view(s.usb_type),
            online: match opt_view(s.online) {
                Some(o) => Some(o == "1"@),
                None => None,
            },
        }
    }
}

pub open spec fn volt_distance(o: PowerOption, mv: u32) -> int {
    if o.voltage_mv >= mv {
        o.voltage_mv - mv
    } else {
        mv - o.voltage_mv
    }
}

/// Index of the fixed option closest in voltage to `mv`, the first among
/// equals; -1 when there is no fixed option.
pub open spec fn closest_fixed(opts: Seq<PowerOption>, mv: u32) -> int
    decreases opts.len(),
{
    if opts.len() == 0 {
        -1
    } else {
        let p = closest_fixed(opts.drop_last(), mv);
        if opts.last().kind != PowerOptionKind::Fixed {
            p
        } else if p < 0 || volt_distance(opts.last(), mv) < volt_distance(opts[p], mv) {
            opts.len() - 1
        } else {
            p
        }
    }
}

/// The power source of a port entry, when the partner has a PD link.
pub open spec fn spec_source(e: RawTypecEntry, sups: Seq<RawSupply>) -> Option<SourceModel> {
    match e.pd_link {
        None => None,
        Some(link) => {
            let opts = match link.source_capabilities {
                Some(pdos) => spec_options(pdos@),
                None => seq![],
            };
            let u = spec_ucsi(e.name@, sups);
            let online = u.online == Some(true);
            let k = closest_fixed(opts, u.mv->0);
            Some(
                SourceModel {
                    port_key: e.name@,
                    name: match opt_view(link.name) {
                        Some(n) => n,
                        None => "pd"@,
                    },
                    max_power_mw: max_power(opts),
                    options: opts,
                    winning: if u.mv is Some && online && k >= 0 {
                        Some(opts[k])
                    } else {
                        None
                    },
                    negotiated_mv: if online {
                        u.mv
                    } else {
                        None
                    },
                    negotiated_ma: if online {
                        u.ma
                    } else {
                        None
                    },
                    usb_type: u.usb_type,
                },
            )
        },
    }
}

/// Looking up the UCSI supply adds one to the port number, which must fit.
pub open spec fn source_in_range(e: RawTypecEntry) -> bool {
    e.pd_link is Some ==> port_index(e.name@) < u32::MAX
}

fn sub_chars(v: &Vec<char>, from: usize, to: usize) -> (res: Vec<char>)
    requires
        from <= to <= v@.len(),
    ensures
        res@ == v@.subrange(from as int, to as int),
{
    let mut out: Vec<char> = Vec::new();
    let mut i = from;
    while i < to
        invariant
            from <= i <= to <= v@.len(),
            out@ == v@.subrange(from as int, i as int),
        decreases to - i,
    {
        out.push(v[i]);
        i = i + 1;
        assert(out@ =~= v@.subrange(from as int, i as int));
    }
    out
}

fn kind_of(k: &Vec<char>) -> (res: Option<PowerOptionKind>)
    ensures
        res == pdo_kind(k@),
{
    if crate::strings::chars_eq(k, "fixed_supply") {
        Some(PowerOptionKind::Fixed)
    } else if crate::strings::chars_eq(k, "variable_supply") {
        Some(PowerOptionKind::Variable)
    } else if crate::strings::chars_eq(k, "battery") {
        Some(PowerOptionKind::Battery)
    } else if crate::strings::chars_eq(k, "programmable_supply") {
        Some(PowerOptionKind::Pps)
    } else {
        None
    }
}

fn entry_index(entry: &str) -> (res: u64)
    ensures
        res == pdo_index(entry@),
{
    let v = chars_of(entry);
    let head = match find_char(&v, ':') {
        Some(i) => sub_chars(&v, 0, i),
        None => sub_chars(&v, 0, v.len()),
    };
    assert(head@ =~= before_colon(entry@));
    match parse_unsigned_chars(&head, 10, u32::MAX as u64) {
        Some(x) => x,
        None => 0,
    }
}

fn mu_either(a: &Option<String>, b: &Option<String>) -> (res: Option<i64>)
    ensures
        match mu_or(*a, *b) {
            Some(v) => res == Some(v as i64),
            None => res is None,
        },
{
    match read_mu_int(opt_str(a)) {
        Some(v) => Some(v),
        None => read_mu_int(opt_str(b)),
    }
}

/// The option a capability directory describes (`parse_pdo`).
pub fn parse_pdo(p: &RawPdo, kind: PowerOptionKind) -> (res: Option<PowerOption>)
    ensures
        res == spec_parse_pdo(*p, kind),
{
    let v = match mu_either(&p.voltage, &p.maximum_voltage) {
        Some(v) => v,
        None => {
            return None;
        },
    };
    let c: i64 = match mu_either(&p.maximum_current, &p.operational_current) {
        Some(c) => if c >= 0 {
            c
        } else {
            0
        },
        None => 0,
    };
    let mut o = PowerOption::fixed(v as u32, c as u32);
    o.kind = kind;
    if kind != PowerOptionKind::Fixed {
        if let Some(pw) = read_mu_int(opt_str(&p.maximum_power)) {
            o.max_power_mw = pw as u32;
        }
    }
    Some(o)
}

fn pdo_option(p: &RawPdo) -> (res: Option<PowerOption>)
    ensures
        res == spec_pdo_option(*p),
{
    let e = chars_of(p.entry.as_str());
    match find_char(&e, ':') {
        Some(i) => {
            assert(i < e.len());
            let rest = sub_chars(&e, i + 1, e.len());
            assert(rest@ =~= e@.skip(i + 1));
            match kind_of(&rest) {
                Some(k) => parse_pdo(p, k),
                None => None,
            }
        },
        None => None,
    }
}

fn options_of(pdos: &Vec<RawPdo>) -> (res: Vec<PowerOption>)
    ensures
        res@ == spec_options(pdos@),
{
    let mut keys: Vec<u64> = Vec::new();
    let mut i: usize = 0;
    while i < pdos.len()
        invariant
            i <= pdos@.len(),
            nat_keys(keys@) == pdo_keys(pdos@).take(i as int),
        decreases pdos.len() - i,
    {
        let k = entry_index(pdos[i].entry.as_str());
        let ghost before = nat_keys(keys@);
        keys.push(k);
        assert(nat_keys(keys@) =~= before.push(k as nat));
        assert(pdo_keys(pdos@).take(i + 1) =~= pdo_keys(pdos@).take(i as int).push(
            pdo_index(pdos@[i as int].entry@),
        ));
        i = i + 1;
        assert(nat_keys(keys@) =~= pdo_keys(pdos@).take(i as int));
    }
    assert(pdo_keys(pdos@).take(i as int) =~= pdo_keys(pdos@));
    let order = stable_order_u64(&keys);
    let ghost ord = as_ints(order@);
    let mut out: Vec<PowerOption> = Vec::new();
    let mut j: usize = 0;
    while j < order.len()
        invariant
            j <= order@.len(),
            ord == as_ints(order@),
            keys@.len() == pdos@.len(),
            forall|t: int| 0 <= t < order@.len() ==> #[trigger] order@[t] < keys@.len(),
            out@ == options_in_order(pdos@, ord.take(j as int)),
        decreases order.len() - j,
    {
        assert(ord.take(j + 1).drop_last() =~= ord.take(j as int));
        match pdo_option(&pdos[order[j]]) {
            Some(o) => {
                out.push(o);
            },
            None => {},
        }
        j = j + 1;
        assert(out@ =~= options_in_order(pdos@, ord.take(j as int)));
    }
    assert(ord.take(j as int) =~= ord);
    out
}

fn max_power_of(opts: &Vec<PowerOption>) -> (res: u32)
    ensures
        res == max_power(opts@),
{
    let mut m: u32 = 0;
    let mut i: usize = 0;
    while i < opts.len()
        invariant
            i <= opts@.len(),
            m == max_power(opts@.take(i as int)),
        decreases opts.len() - i,
    {
        assert(opts@.take(i + 1).drop_last() =~= opts@.take(i as int));
        if opts[i].max_power_mw > m {
            m = opts[i].max_power_mw;
        }
        i = i + 1;
    }
    assert(opts@.take(i as int) =~= opts@);
    m
}

proof fn lemma_strip_port_skip(s: Seq<char>, i: int)
    requires
        0 <= i,
        i + 4 <= s.len(),
        begins_with(s.skip(i), "port"@),
    ensures
        strip_port(s.skip(i)) == strip_port(s.skip(i + 4)),
{
    reveal_strlit("port");
    assert(s.skip(i).skip(4) =~= s.skip(i + 4));
}

fn is_port_at(v: &Vec<char>, i: usize) -> (res: bool)
    requires
        i <= v@.len(),
    ensures
        res == begins_with(v@.skip(i as int), "port"@),
{
    let p = chars_of("port");
    if v.len() - i < 4 || p.len() != 4 {
        proof {
            reveal_strlit("port");
        }
        return false;
    }
    let mut k: usize = 0;
    while k < 4
        invariant
            k <= 4,
            i + 4 <= v@.len(),
            p@ == "port"@,
            p@.len() == 4,
            forall|j: int| 0 <= j < k ==> v@[i + j] == p@[j],
        decreases 4 - k,
    {
        assert(i + k < v.len());
        if v[i + k] != p[k] {
            assert(v@.skip(i as int).take(4)[k as int] != p@[k as int]);
            return false;
        }
        k = k + 1;
    }
    assert(v@.skip(i as int).take(4) =~= p@);
    true
}

fn port_number(name: &str) -> (res: u32)
    ensures
        res == port_index(name@),
{
    let v = chars_of(name);
    let mut i: usize = 0;
    assert(v@.skip(0) =~= v@);
    while v.len() - i >= 4 && is_port_at(&v, i)
        invariant
            i <= v@.len(),
            strip_port(v@) == strip_port(v@.skip(i as int)),
        decreases v.len() - i,
    {
        proof {
            lemma_strip_port_skip(v@, i as int);
        }
        i = i + 4;
    }
    proof {
        reveal_strlit("port");
        if v.len() - i < 4 {
            assert(!begins_with(v@.skip(i as int), "port"@));
        }
        assert(!(v@.skip(i as int).len() >= 4 && v@.skip(i as int).take(4) == "port"@));
    }
    let rest = sub_chars(&v, i, v.len());
    assert(rest@ =~= v@.skip(i as int));
    match parse_unsigned_chars(&rest, 10, u32::MAX as u64) {
        Some(x) => x as u32,
        None => 0,
    }
}

fn ends_with_chars(s: &Vec<char>, t: &Vec<char>) -> (res: bool)
    ensures
        res == ends_with(s@, t@),
{
    if t.len() > s.len() {
        return false;
    }
    let off = s.len() - t.len();
    let mut k: usize = 0;
    while k < t.len()
        invariant
            k <= t@.len(),
            off + t@.len() == s@.len(),
            forall|j: int| 0 <= j < k ==> s@[off + j] == t@[j],
        decreases t.len() - k,
    {
        assert(off + k < s.len());
        if s[off + k] != t[k] {
            assert(s@.skip(off as int)[k as int] != t@[k as int]);
            return false;
        }
        k = k + 1;
    }
    assert(s@.skip(off as int) =~= t@);
    true
}

proof fn lemma_first_supply(sups: Seq<RawSupply>, suffix: Seq<char>, i: int)
    requires
        0 <= i <= sups.len(),
        forall|j: int| 0 <= j < i ==> !is_ucsi_supply(#[trigger] sups[j], suffix),
        i < sups.len() ==> is_ucsi_supply(sups[i], suffix),
    ensures
        first_supply(sups, suffix) == (if i < sups.len() {
            i
        } else {
            -1
        }),
    decreases i,
{
    if sups.len() > 0 && i > 0 {
        let t = sups.drop_first();
        assert forall|j: int| 0 <= j < i - 1 implies !is_ucsi_supply(#[trigger] t[j], suffix) by {
            assert(t[j] == sups[j + 1]);
        }
        lemma_first_supply(t, suffix, i - 1);
    }
}

fn milli_of(o: &Option<String>) -> (res: Option<u32>)
    ensures
        res == milli(*o),
{
    match o {
        Some(t) => match parse_u64(t.as_str()) {
            Some(u) => {
                assert(parse_unsigned(t@, 10, u64::MAX as nat) == Some(u as nat));
                Some((u / 1000) as u32)
            },
            None => None,
        },
        None => None,
    }
}

/// Live readings of a port's UCSI power supply (`read_ucsi_for_port`).
fn read_ucsi(name: &str, sups: &Vec<RawSupply>) -> (res: (
    Option<u32>,
    Option<u32>,
    Option<String>,
    Option<bool>,
))
    requires
        port_index(name@) < u32::MAX,
    ensures
        ({
            let u = spec_ucsi(name@, sups@);
            &&& res.0 == u.mv
            &&& res.1 == u.ma
            &&& opt_view(res.2) == u.usb_type
            &&& res.3 == u.online
        }),
{
    let idx = port_number(name);
    let mut suffix = owned(":");
    push_padded(&mut suffix, (idx + 1) as u64, 10, 3, false);
    let suf = chars_of(suffix.as_str());
    let ghost sfx = ucsi_suffix(name@);
    assert(suf@ =~= sfx);
    let mut i: usize = 0;
    while i < sups.len()
        invariant
            i <= sups@.len(),
            suf@ == sfx,
            sfx == ucsi_suffix(name@),
            forall|j: int| 0 <= j < i ==> !is_ucsi_supply(#[trigger] sups@[j], sfx),
        decreases sups.len() - i,
    {
        let s = &sups[i];
        let n = chars_of(s.name.as_str());
        if starts_with(&n, "ucsi-source-psy") && ends_with_chars(&n, &suf) {
            proof {
                lemma_first_supply(sups@, sfx, i as int);
            }
            let online = match &s.online {
                Some(o) => Some(str_eq(o.as_str(), "1")),
                None => None,
            };
            let usb_type = match &s.usb_type {
                Some(t) => Some(owned(t.as_str())),
                None => None,
            };
            let mv = milli_of(&s.voltage_now);
            let ma = milli_of(&s.current_now);
            return (mv, ma, usb_type, online);
        }
        i = i + 1;
    }
    proof {
        lemma_first_supply(sups@, sfx, i as int);
    }
    (None, None, None, None)
}

fn closest_fixed_index(opts: &Vec<PowerOption>, mv: u32) -> (res: Option<usize>)
    ensures
        res is None <==> closest_fixed(opts@, mv) < 0,
        res matches Some(k) ==> k == closest_fixed(opts@, mv) && k < opts@.len(),
{
    let mut best: Option<usize> = None;
    let mut best_d: u64 = 0;
    let mut i: usize = 0;
    while i < opts.len()
        invariant
            i <= opts@.len(),
            best is None <==> closest_fixed(opts@.take(i as int), mv) < 0,
            best matches Some(k) ==> k == closest_fixed(opts@.take(i as int), mv) && k < i
                && best_d == volt_distance(opts@[k as int], mv),
        decreases opts.len() - i,
    {
        assert(opts@.take(i + 1).drop_last() =~= opts@.take(i as int));
        let o = opts[i];
        if o.kind == PowerOptionKind::Fixed {
            let d: u64 = if o.voltage_mv >= mv {
                (o.voltage_mv - mv) as u64
            } else {
                (mv - o.voltage_mv) as u64
            };
            match best {
                None => {
                    best = Some(i);
                    best_d = d;
                },
                Some(_) => {
                    if d < best_d {
                        best = Some(i);
                        best_d = d;
                    }
                },
            }
        }
        i = i + 1;
    }
    assert(opts@.take(i as int) =~= opts@);
    best
}

/// The power source of a port entry (`read_power_sources`, for one port).
pub fn build_source(e: &RawTypecEntry, sups: &Vec<RawSupply>) -> (res: Option<PowerSource>)
    requires
        source_in_range(*e),
    ensures
        match spec_source(*e, sups@) {
            Some(m) => res matches Some(x) && x@ == m,
            None => res is None,
        },
{
    let link = match &e.pd_link {
        Some(l) => l,
        None => {
            return None;
        },
    };
    let name = match &link.name {
        Some(n) => owned(n.as_str()),
        None => owned("pd"),
    };
    let options: Vec<PowerOption> = match &link.source_capabilities {
        Some(pdos) => options_of(pdos),
        None => Vec::new(),
    };
    let max_power_mw = max_power_of(&options);
    let (mv, ma, usb_type, online) = read_ucsi(e.name.as_str(), sups);
    let is_online = match online {
        Some(b) => b,
        None => false,
    };
    let winning = match mv {
        Some(m) => if is_online {
            match closest_fixed_index(&options, m) {
                Some(k) => Some(options[k]),
                None => None,
            }
        } else {
            None
        },
        None => None,
    };
    let src = PowerSource {
        port_key: owned(e.name.as_str()),
        name,
        max_power_mw,
        options,
        winning,
        negotiated_mv: if is_online {
            mv
        } else {
            None
        },
        negotiated_ma: if is_online {
            ma
        } else {
            None
        },
        usb_type,
    };
    assert(src@ == spec_source(*e, sups@)->0);
    Some(src)
}


// ---------------------------------------------------------------------------
// USB and Thunderbolt devices
// ---------------------------------------------------------------------------

pub open spec fn opt_u32(o: Option<String>) -> Option<u32> {
    match o {
        Some(t) => match parse_unsigned(t@, 10, u32::MAX as nat) {
            Some(v) => Some(v as u32),
            None => None,
        },
        None => None,
    }
}

pub open spec fn opt_hex16(o: Option<String>) -> Option<u16> {
    match opt_hex(opt_view(o)) {
        Some(v) => Some(v as u16),
        None => None,
    }
}

/// The device a USB device directory describes; interface entries (with
/// `:`) and entries without a readable `busnum` are skipped.
pub open spec fn spec_usb_device(d: RawUsbDevice) -> Option<UsbDeviceModel> {
    if d.name@.contains(':') {
        None
    } else {
        match opt_u32(d.busnum) {
            None => None,
            Some(b) => Some(
                UsbDeviceModel {
                    bus: b,
                    devnum: match opt_u32(d.devnum) {
                        Some(n) => n,
                        None => 0,
                    },
                    path: d.name@,
                    speed_mbps: opt_u32(d.speed),
                    vendor_id: opt_hex16(d.id_vendor),
                    product_id: opt_hex16(d.id_product),
                    manufacturer: opt_view(d.manufacturer),
                    product: opt_view(d.product),
                },
            ),
        }
    }
}

pub open spec fn usb_models(ds: Seq<RawUsbDevice>) -> Seq<UsbDeviceModel>
    decreases ds.len(),
{
    if ds.len() == 0 {
        seq![]
    } else {
        usb_models(ds.drop_last()) + opt_seq(spec_usb_device(ds.last()))
    }
}

/// `(bus, devnum)` as one number, ordered as the pair is.
pub open spec fn bus_dev_key(d: UsbDeviceModel) -> nat {
    d.bus as nat * 0x1_0000_0000 + d.devnum as nat
}

pub open spec fn apply_order<T>(s: Seq<T>, order: Seq<int>) -> Seq<T> {
    order.map_values(|i: int| s[i])
}

/// The attached USB devices, ordered by bus and device number.
pub open spec fn spec_usb_devices(raw: Option<Vec<RawUsbDevice>>) -> Seq<UsbDeviceModel> {
    match raw {
        None => seq![],
        Some(ds) => {
            let ms = usb_models(ds@);
            apply_order(
                ms,
                order_by_nat(ms.map_values(|d: UsbDeviceModel| bus_dev_key(d)), ms.len() as int),
            )
        },
    }
}

/// `build_snapshot` lists the USB devices it read, each once, by bus number
/// and then device number.
pub proof fn law_usb_devices_by_bus_and_number(raw: Option<Vec<RawUsbDevice>>)
    ensures
        ({
            let r = spec_usb_devices(raw);
            let ms = match raw {
                Some(ds) => usb_models(ds@),
                None => seq![],
            };
            &&& r.len() == ms.len()
            &&& forall|j: int, k: int|
                0 <= j < k < r.len() ==> r[j].bus < r[k].bus || (r[j].bus == r[k].bus
                    && r[j].devnum <= r[k].devnum)
        }),
{
    match raw {
        None => {},
        Some(ds) => {
            let ms = usb_models(ds@);
            let keys = ms.map_values(|d: UsbDeviceModel| bus_dev_key(d));
            let o = order_by_nat(keys, ms.len() as int);
            crate::order::law_order_by_nat(keys, ms.len() as int);
            let r = spec_usb_devices(raw);
            assert forall|j: int, k: int| 0 <= j < k < r.len() implies r[j].bus < r[k].bus || (
            r[j].bus == r[k].bus && r[j].devnum <= r[k].devnum) by {
                let a = r[j];
                let b = r[k];
                assert(a == ms[o[j]] && b == ms[o[k]]);
                assert(keys[o[j]] == bus_dev_key(a) && keys[o[k]] == bus_dev_key(b));
                assert(bus_dev_key(a) <= bus_dev_key(b));
                let (ab, ad, bb, bd) = (a.bus as int, a.devnum as int, b.bus as int, b.devnum as int);
                assert(ab < bb || (ab == bb && ad <= bd)) by (nonlinear_arith)
                    requires
                        ab * 0x1_0000_0000 + ad <= bb * 0x1_0000_0000 + bd,
                        0 <= ad < 0x1_0000_0000,
                        0 <= bd < 0x1_0000_0000,
                        0 <= ab,
                        0 <= bb,
                ;
            }
        },
    }
}

/// The device a Thunderbolt directory describes; `domainN` entries are skipped.
pub open spec fn spec_tb_device(d: RawTbDevice) -> Option<TbDeviceModel> {
    if begins_with(d.name@, "domain"@) {
        None
    } else {
        Some(
            TbDeviceModel {
                path: d.name@,
                vendor_name: opt_view(d.vendor_name),
                device_name: opt_view(d.device_name),
                authorized: match opt_view(d.authorized) {
                    Some(a) => Some(a == "1"@),
                    None => None,
                },
            },
        )
    }
}

pub open spec fn tb_models(ds: Seq<RawTbDevice>) -> Seq<TbDeviceModel>
    decreases ds.len(),
{
    if ds.len() == 0 {
        seq![]
    } else {
        tb_models(ds.drop_last()) + opt_seq(spec_tb_device(ds.last()))
    }
}

pub open spec fn spec_tb_devices(raw: Option<Vec<RawTbDevice>>) -> Seq<TbDeviceModel> {
    match raw {
        None => seq![],
        Some(ds) => tb_models(ds@),
    }
}

fn opt_u32_of(o: &Option<String>) -> (res: Option<u32>)
    ensures
        res == opt_u32(*o),
{
    match o {
        Some(t) => match crate::sysfs::parse_u32(t.as_str()) {
            Some(v) => Some(v),
            None => None,
        },
        None => None,
    }
}

fn opt_hex16_of(o: &Option<String>) -> (res: Option<u16>)
    ensures
        res == opt_hex16(*o),
{
    match read_hex_u32(opt_str(o)) {
        Some(v) => {
            assert(opt_hex(opt_view(*o)) == Some(v as nat));
            Some(v as u16)
        },
        None => None,
    }
}

fn clone_opt(o: &Option<String>) -> (res: Option<String>)
    ensures
        opt_view(res) == opt_view(*o),
{
    match o {
        Some(t) => Some(owned(t.as_str())),
        None => None,
    }
}

fn usb_device_of(d: &RawUsbDevice) -> (res: Option<UsbDevice>)
    ensures
        match spec_usb_device(*d) {
            Some(m) => res matches Some(x) && x@ == m,
            None => res is None,
        },
{
    let name = chars_of(d.name.as_str());
    if contains_char(&name, ':') {
        return None;
    }
    let bus = match opt_u32_of(&d.busnum) {
        Some(b) => b,
        None => {
            return None;
        },
    };
    let dev = UsbDevice {
        bus,
        devnum: match opt_u32_of(&d.devnum) {
            Some(n) => n,
            None => 0,
        },
        path: owned(d.name.as_str()),
        speed_mbps: opt_u32_of(&d.speed),
        vendor_id: opt_hex16_of(&d.id_vendor),
        product_id: opt_hex16_of(&d.id_product),
        manufacturer: clone_opt(&d.manufacturer),
        product: clone_opt(&d.product),
    };
    Some(dev)
}

/// The attached USB devices (`read_usb_devices`).
pub fn build_usb_devices(raw: &Option<Vec<RawUsbDevice>>) -> (res: Vec<UsbDevice>)
    ensures
        res@.map_values(|d: UsbDevice| d@) == spec_usb_devices(*raw),
{
    let ds = match raw {
        Some(ds) => ds,
        None => {
            let v: Vec<UsbDevice> = Vec::new();
            assert(v@.map_values(|d: UsbDevice| d@) =~= Seq::<UsbDeviceModel>::empty());
            return v;
        },
    };
    let mut devs: Vec<UsbDevice> = Vec::new();
    let mut i: usize = 0;
    while i < ds.len()
        invariant
            i <= ds@.len(),
            devs@.map_values(|d: UsbDevice| d@) == usb_models(ds@.take(i as int)),
        decreases ds.len() - i,
    {
        assert(ds@.take(i + 1).drop_last() =~= ds@.take(i as int));
        let ghost before = devs@.map_values(|d: UsbDevice| d@);
        match usb_device_of(&ds[i]) {
            Some(d) => {
                devs.push(d);
            },
            None => {},
        }
        i = i + 1;
        assert(devs@.map_values(|d: UsbDevice| d@) =~= usb_models(ds@.take(i as int)));
    }
    assert(ds@.take(i as int) =~= ds@);
    let ghost ms = usb_models(ds@);
    let mut keys: Vec<u64> = Vec::new();
    let mut k: usize = 0;
    while k < devs.len()
        invariant
            k <= devs@.len(),
            ms == devs@.map_values(|d: UsbDevice| d@),
            nat_keys(keys@) == ms.map_values(|d: UsbDeviceModel| bus_dev_key(d)).take(k as int),
        decreases devs.len() - k,
    {
        let key: u64 = (devs[k].bus as u64) * 0x1_0000_0000u64 + devs[k].devnum as u64;
        let ghost before = nat_keys(keys@);
        keys.push(key);
        assert(nat_keys(keys@) =~= before.push(key as nat));
        assert(ms[k as int] == devs@[k as int]@);
        k = k + 1;
        assert(nat_keys(keys@) =~= ms.map_values(|d: UsbDeviceModel| bus_dev_key(d)).take(
            k as int,
        ));
    }
    assert(ms.map_values(|d: UsbDeviceModel| bus_dev_key(d)).take(k as int) =~= ms.map_values(
        |d: UsbDeviceModel| bus_dev_key(d),
    ));
    let order = stable_order_u64(&keys);
    let ghost ord = as_ints(order@);
    let mut out: Vec<UsbDevice> = Vec::new();
    let mut j: usize = 0;
    while j < order.len()
        invariant
            j <= order@.len(),
            ord == as_ints(order@),
            keys@.len() == devs@.len(),
            ms == devs@.map_values(|d: UsbDevice| d@),
            ord.len() == order@.len(),
            forall|t: int| 0 <= t < order@.len() ==> #[trigger] order@[t] < keys@.len(),
            out@.map_values(|d: UsbDevice| d@) == apply_order(ms, ord.take(j as int)),
        decreases order.len() - j,
    {
        let src = &devs[order[j]];
        let d = UsbDevice {
            bus: src.bus,
            devnum: src.devnum,
            path: owned(src.path.as_str()),
            speed_mbps: src.speed_mbps,
            vendor_id: src.vendor_id,
            product_id: src.product_id,
            manufacturer: clone_opt(&src.manufacturer),
            product: clone_opt(&src.product),
        };
        let ghost before = out@.map_values(|d: UsbDevice| d@);
        assert(d@ == devs@[order@[j as int] as int]@);
        assert(ms[ord[j as int]] == d@);
        out.push(d);
        assert(out@.map_values(|d: UsbDevice| d@) =~= before.push(d@));
        assert(ord.take(j + 1) =~= ord.take(j as int).push(ord[j as int]));
        j = j + 1;
        assert(out@.map_values(|d: UsbDevice| d@) =~= apply_order(ms, ord.take(j as int)));
    }
    assert(ord.take(j as int) =~= ord);
    out
}

fn tb_device_of(d: &RawTbDevice) -> (res: Option<ThunderboltDevice>)
    ensures
        match spec_tb_device(*d) {
            Some(m) => res matches Some(x) && x@ == m,
            None => res is None,
        },
{
    let name = chars_of(d.name.as_str());
    if starts_with(&name, "domain") {
        return None;
    }
    Some(
        ThunderboltDevice {
            path: owned(d.name.as_str()),
            vendor_name: clone_opt(&d.vendor_name),
            device_name: clone_opt(&d.device_name),
            authorized: match &d.authorized {
                Some(a) => Some(str_eq(a.as_str(), "1")),
                None => None,
            },
        },
    )
}

/// The Thunderbolt devices (`read_thunderbolt_devices`).
pub fn build_tb_devices(raw: &Option<Vec<RawTbDevice>>) -> (res: Vec<ThunderboltDevice>)
    ensures
        res@.map_values(|d: ThunderboltDevice| d@) == spec_tb_devices(*raw),
{
    let mut out: Vec<ThunderboltDevice> = Vec::new();
    let ds = match raw {
        Some(ds) => ds,
        None => {
            assert(out@.map_values(|d: ThunderboltDevice| d@) =~= Seq::<TbDeviceModel>::empty());
            return out;
        },
    };
    let mut i: usize = 0;
    while i < ds.len()
        invariant
            i <= ds@.len(),
            out@.map_values(|d: ThunderboltDevice| d@) == tb_models(ds@.take(i as int)),
        decreases ds.len() - i,
    {
        assert(ds@.take(i + 1).drop_last() =~= ds@.take(i as int));
        match tb_device_of(&ds[i]) {
            Some(d) => {
                out.push(d);
            },
            None => {},
        }
        i = i + 1;
        assert(out@.map_values(|d: ThunderboltDevice| d@) =~= tb_models(ds@.take(i as int)));
    }
    assert(ds@.take(i as int) =~= ds@);
    out
}


// ---------------------------------------------------------------------------
// The whole snapshot
// ---------------------------------------------------------------------------

/// The typec entries that are ports, in directory order.
pub open spec fn port_entries(typec: Seq<RawTypecEntry>) -> Seq<RawTypecEntry>
    decreases typec.len(),
{
    if typec.len() == 0 {
        seq![]
    } else {
        port_entries(typec.drop_last()) + if is_port_entry(typec.last().name@) {
            seq![typec.last()]
        } else {
            seq![]
        }
    }
}

pub open spec fn entry_names(es: Seq<RawTypecEntry>) -> Seq<Seq<char>> {
    es.map_values(|e: RawTypecEntry| e.name@)
}

/// The port entries ordered by port key.
pub open spec fn sorted_ports(typec: Seq<RawTypecEntry>) -> Seq<RawTypecEntry> {
    let es = port_entries(typec);
    apply_order(es, order_by_text(entry_names(es), es.len() as int))
}

pub open spec fn all_sources(es: Seq<RawTypecEntry>, sups: Seq<RawSupply>) -> Seq<SourceModel>
    decreases es.len(),
{
    if es.len() == 0 {
        seq![]
    } else {
        all_sources(es.drop_last(), sups) + opt_seq(spec_source(es.last(), sups))
    }
}

pub open spec fn all_identities(es: Seq<RawTypecEntry>) -> Seq<IdentityModel>
    decreases es.len(),
{
    if es.len() == 0 {
        seq![]
    } else {
        all_identities(es.drop_last()) + spec_port_identities(es.last())
    }
}

/// The snapshot `build_snapshot` makes of what was read.
pub open spec fn spec_snapshot(raw: RawSysfs) -> SnapshotModel {
    let ports = sorted_ports(raw.typec@);
    SnapshotModel {
        ports: ports.map_values(|e: RawTypecEntry| spec_port(e)),
        power_sources: all_sources(ports, raw.supplies@),
        identities: all_identities(ports),
        usb_devices: spec_usb_devices(raw.usb_devices),
        thunderbolt_devices: spec_tb_devices(raw.thunderbolt_devices),
    }
}

/// Every port whose partner has a PD link has a number below `u32::MAX`.
pub open spec fn snapshot_in_range(raw: RawSysfs) -> bool {
    forall|i: int|
        0 <= i < raw.typec@.len() && is_port_entry(#[trigger] raw.typec@[i].name@)
            ==> source_in_range(raw.typec@[i])
}

/// Whether `build_snapshot` can work on `raw` without overflowing
/// (`snapshot_in_range`).
pub fn raw_in_range(raw: &RawSysfs) -> (res: bool)
    ensures
        res == snapshot_in_range(*raw),
{
    let mut i: usize = 0;
    while i < raw.typec.len()
        invariant
            i <= raw.typec@.len(),
            forall|j: int|
                0 <= j < i && is_port_entry(#[trigger] raw.typec@[j].name@) ==> source_in_range(
                    raw.typec@[j],
                ),
        decreases raw.typec.len() - i,
    {
        let e = &raw.typec[i];
        let n = chars_of(e.name.as_str());
        if starts_with(&n, "port") && !contains_char(&n, '-') && e.pd_link.is_some() {
            if port_number(e.name.as_str()) == u32::MAX {
                return false;
            }
        }
        i = i + 1;
    }
    true
}

proof fn lemma_port_entries_are_ports(typec: Seq<RawTypecEntry>)
    ensures
        forall|k: int|
            0 <= k < port_entries(typec).len() ==> is_port_entry(
                (#[trigger] port_entries(typec)[k]).name@,
            ),
    decreases typec.len(),
{
    if typec.len() > 0 {
        lemma_port_entries_are_ports(typec.drop_last());
        let p = port_entries(typec.drop_last());
        assert forall|k: int|
            0 <= k < port_entries(typec).len() implies is_port_entry(
                (#[trigger] port_entries(typec)[k]).name@,
            ) by {
            if k < p.len() {
                assert(port_entries(typec)[k] == p[k]);
            }
        }
    }
}

/// `build_snapshot` lists every `portN` entry once, in lexicographic order of
/// its key, and nothing else.
pub proof fn law_ports_in_key_order(raw: RawSysfs)
    ensures
        ({
            let ports = spec_snapshot(raw).ports;
            &&& ports.len() == port_entries(raw.typec@).len()
            &&& forall|j: int| 0 <= j < ports.len() ==> is_port_entry(#[trigger] ports[j].port_key)
            &&& forall|j: int, k: int|
                0 <= j < k < ports.len() ==> crate::order::lex_le(
                    ports[j].port_key,
                    ports[k].port_key,
                )
        }),
{
    let es = port_entries(raw.typec@);
    let keys = entry_names(es);
    let o = order_by_text(keys, es.len() as int);
    crate::order::law_order_by_text(keys, es.len() as int);
    lemma_port_entries_are_ports(raw.typec@);
    let sorted = sorted_ports(raw.typec@);
    let ports = spec_snapshot(raw).ports;
    assert(sorted == apply_order(es, o));
    assert forall|j: int| 0 <= j < ports.len() implies is_port_entry(
        #[trigger] ports[j].port_key,
    ) by {
        assert(ports[j] == spec_port(sorted[j]));
        assert(sorted[j] == es[o[j]]);
    }
    assert forall|j: int, k: int| 0 <= j < k < ports.len() implies crate::order::lex_le(
        ports[j].port_key,
        ports[k].port_key,
    ) by {
        assert(ports[j] == spec_port(sorted[j]));
        assert(ports[k] == spec_port(sorted[k]));
        assert(sorted[j] == es[o[j]] && sorted[k] == es[o[k]]);
        assert(keys[o[j]] == es[o[j]].name@ && keys[o[k]] == es[o[k]].name@);
    }
}

proof fn lemma_port_entries_members(typec: Seq<RawTypecEntry>)
    ensures
        forall|k: int|
            0 <= k < port_entries(typec).len() ==> exists|i: int|
                0 <= i < typec.len() && #[trigger] port_entries(typec)[k] == typec[i],
    decreases typec.len(),
{
    if typec.len() > 0 {
        let d = typec.drop_last();
        lemma_port_entries_members(d);
        let p = port_entries(d);
        assert forall|k: int| 0 <= k < port_entries(typec).len() implies exists|i: int|
            0 <= i < typec.len() && #[trigger] port_entries(typec)[k] == typec[i] by {
            if k < p.len() {
                assert(port_entries(typec)[k] == p[k]);
                let i = choose|i: int| 0 <= i < d.len() && p[k] == d[i];
                assert(typec[i] == d[i]);
            } else {
                assert(port_entries(typec)[k] == typec[typec.len() - 1]);
            }
        }
    }
}

proof fn lemma_port_entries_distinct(typec: Seq<RawTypecEntry>)
    requires
        forall|i: int, j: int|
            0 <= i < j < typec.len() ==> (#[trigger] typec[i]).name@ != (#[trigger] typec[j]).name@,
    ensures
        forall|i: int, j: int|
            0 <= i < j < port_entries(typec).len() ==> (#[trigger] port_entries(typec)[i]).name@
                != (#[trigger] port_entries(typec)[j]).name@,
    decreases typec.len(),
{
    if typec.len() > 0 {
        let d = typec.drop_last();
        assert forall|i: int, j: int| 0 <= i < j < d.len() implies (#[trigger] d[i]).name@ != (
        #[trigger] d[j]).name@ by {
            assert(d[i] == typec[i] && d[j] == typec[j]);
        }
        lemma_port_entries_distinct(d);
        lemma_port_entries_members(d);
        let p = port_entries(d);
        let e = port_entries(typec);
        assert forall|i: int, j: int| 0 <= i < j < e.len() implies (#[trigger] e[i]).name@ != (
        #[trigger] e[j]).name@ by {
            if j < p.len() {
                assert(e[i] == p[i] && e[j] == p[j]);
            } else {
                assert(e[i] == p[i]);
                assert(e[j] == typec[typec.len() - 1]);
                let m = choose|m: int| 0 <= m < d.len() && p[i] == d[m];
                assert(d[m] == typec[m]);
            }
        }
    }
}

proof fn lemma_source_keys(es: Seq<RawTypecEntry>, sups: Seq<RawSupply>)
    ensures
        forall|m: int|
            0 <= m < all_sources(es, sups).len() ==> exists|k: int|
                0 <= k < es.len() && #[trigger] all_sources(es, sups)[m].port_key == es[k].name@,
    decreases es.len(),
{
    if es.len() > 0 {
        let d = es.drop_last();
        lemma_source_keys(d, sups);
        let a = all_sources(d, sups);
        assert forall|m: int| 0 <= m < all_sources(es, sups).len() implies exists|k: int|
            0 <= k < es.len() && #[trigger] all_sources(es, sups)[m].port_key == es[k].name@ by {
            if m < a.len() {
                assert(all_sources(es, sups)[m] == a[m]);
                let k = choose|k: int| 0 <= k < d.len() && a[m].port_key == d[k].name@;
                assert(es[k] == d[k]);
            } else {
                assert(all_sources(es, sups)[m].port_key == es[es.len() - 1].name@);
            }
        }
    }
}

proof fn lemma_identity_keys(es: Seq<RawTypecEntry>)
    ensures
        forall|m: int|
            0 <= m < all_identities(es).len() ==> exists|k: int|
                0 <= k < es.len() && #[trigger] all_identities(es)[m].port_key == es[k].name@,
    decreases es.len(),
{
    if es.len() > 0 {
        let d = es.drop_last();
        lemma_identity_keys(d);
        let a = all_identities(d);
        let e = es.last();
        let own = spec_port_identities(e);
        assert forall|m: int| 0 <= m < own.len() implies (#[trigger] own[m]).port_key == e.name@ by {}
        assert forall|m: int| 0 <= m < all_identities(es).len() implies exists|k: int|
            0 <= k < es.len() && #[trigger] all_identities(es)[m].port_key == es[k].name@ by {
            if m < a.len() {
                assert(all_identities(es)[m] == a[m]);
                let k = choose|k: int| 0 <= k < d.len() && a[m].port_key == d[k].name@;
                assert(es[k] == d[k]);
            } else {
                assert(all_identities(es)[m] == own[m - a.len()]);
            }
        }
    }
}

proof fn lemma_no_domains(ds: Seq<RawTbDevice>)
    ensures
        forall|j: int|
            0 <= j < tb_models(ds).len() ==> !begins_with(#[trigger] tb_models(ds)[j].path, "domain"@),
    decreases ds.len(),
{
    if ds.len() > 0 {
        lemma_no_domains(ds.drop_last());
        let a = tb_models(ds.drop_last());
        assert forall|j: int| 0 <= j < tb_models(ds).len() implies !begins_with(
            #[trigger] tb_models(ds)[j].path,
            "domain"@,
        ) by {
            if j < a.len() {
                assert(tb_models(ds)[j] == a[j]);
            }
        }
    }
}

/// Some port of `ports` has the key `key`.
pub open spec fn key_listed(ports: Seq<PortModel>, key: Seq<char>) -> bool {
    exists|k: int| 0 <= k < ports.len() && ports[k].port_key == key
}

/// What `build_snapshot` lists belongs together: every power source and
/// every identity carries the key of a listed port, and no `domainN` entry is
/// listed as a Thunderbolt device.
pub proof fn law_snapshot_consistent(raw: RawSysfs)
    ensures
        forall|m: int|
            0 <= m < spec_snapshot(raw).power_sources.len() ==> key_listed(
                spec_snapshot(raw).ports,
                #[trigger] spec_snapshot(raw).power_sources[m].port_key,
            ),
        forall|m: int|
            0 <= m < spec_snapshot(raw).identities.len() ==> key_listed(
                spec_snapshot(raw).ports,
                #[trigger] spec_snapshot(raw).identities[m].port_key,
            ),
        forall|j: int|
            0 <= j < spec_snapshot(raw).thunderbolt_devices.len() ==> !begins_with(
                #[trigger] spec_snapshot(raw).thunderbolt_devices[j].path,
                "domain"@,
            ),
{
    let snap = spec_snapshot(raw);
    let sorted = sorted_ports(raw.typec@);
    assert(snap.ports.len() == sorted.len());
    assert forall|k: int| 0 <= k < sorted.len() implies #[trigger] snap.ports[k].port_key
        == sorted[k].name@ by {}
    lemma_source_keys(sorted, raw.supplies@);
    assert forall|m: int| 0 <= m < snap.power_sources.len() implies key_listed(
        snap.ports,
        #[trigger] snap.power_sources[m].port_key,
    ) by {
        let k = choose|k: int|
            0 <= k < sorted.len() && all_sources(sorted, raw.supplies@)[m].port_key
                == sorted[k].name@;
        assert(snap.ports[k].port_key == sorted[k].name@);
    }
    lemma_identity_keys(sorted);
    assert forall|m: int| 0 <= m < snap.identities.len() implies key_listed(
        snap.ports,
        #[trigger] snap.identities[m].port_key,
    ) by {
        let k = choose|k: int|
            0 <= k < sorted.len() && all_identities(sorted)[m].port_key == sorted[k].name@;
        assert(snap.ports[k].port_key == sorted[k].name@);
    }
    match raw.thunderbolt_devices {
        Some(ds) => {
            lemma_no_domains(ds@);
            assert(snap.thunderbolt_devices == tb_models(ds@));
        },
        None => {},
    }
}

/// When the typec entries have distinct names, `build_snapshot` lists the
/// ports in strictly increasing key order.
pub proof fn law_ports_strictly_ordered(raw: RawSysfs)
    requires
        forall|i: int, j: int|
            0 <= i < j < raw.typec@.len() ==> (#[trigger] raw.typec@[i]).name@ != (
            #[trigger] raw.typec@[j]).name@,
    ensures
        forall|j: int, k: int|
            0 <= j < k < spec_snapshot(raw).ports.len() ==> crate::order::lex_lt(
                spec_snapshot(raw).ports[j].port_key,
                spec_snapshot(raw).ports[k].port_key,
            ),
{
    let snap = spec_snapshot(raw);
    let sorted = sorted_ports(raw.typec@);
    let es = port_entries(raw.typec@);
    let keys = entry_names(es);
    let o = order_by_text(keys, es.len() as int);
    law_ports_in_key_order(raw);
    crate::order::law_order_by_text(keys, es.len() as int);
    lemma_port_entries_distinct(raw.typec@);
    assert forall|j: int, k: int| 0 <= j < k < snap.ports.len() implies crate::order::lex_lt(
        snap.ports[j].port_key,
        snap.ports[k].port_key,
    ) by {
        assert(sorted[j] == es[o[j]] && sorted[k] == es[o[k]]);
        assert(o[j] != o[k]);
        if o[j] < o[k] {
            assert(es[o[j]].name@ != es[o[k]].name@);
        } else {
            assert(es[o[k]].name@ != es[o[j]].name@);
        }
        assert(snap.ports[j].port_key == sorted[j].name@);
        assert(snap.ports[k].port_key == sorted[k].name@);
        assert(crate::order::lex_le(snap.ports[j].port_key, snap.ports[k].port_key));
        crate::order::lemma_lex_total(snap.ports[j].port_key, snap.ports[k].port_key);
    }
}

proof fn lemma_max_power_bounds(opts: Seq<PowerOption>)
    ensures
        forall|i: int| 0 <= i < opts.len() ==> (#[trigger] opts[i]).max_power_mw <= max_power(opts),
        opts.len() == 0 ==> max_power(opts) == 0,
        opts.len() > 0 ==> exists|i: int|
            0 <= i < opts.len() && (#[trigger] opts[i]).max_power_mw == max_power(opts),
    decreases opts.len(),
{
    if opts.len() > 0 {
        let d = opts.drop_last();
        lemma_max_power_bounds(d);
        assert forall|i: int| 0 <= i < opts.len() implies (#[trigger] opts[i]).max_power_mw
            <= max_power(opts) by {
            if i < d.len() {
                assert(opts[i] == d[i]);
            }
        }
        if opts.last().max_power_mw > max_power(d) {
            assert(opts[opts.len() - 1].max_power_mw == max_power(opts));
        } else if d.len() > 0 {
            let i = choose|i: int| 0 <= i < d.len() && (#[trigger] d[i]).max_power_mw == max_power(d);
            assert(opts[i] == d[i]);
        } else {
            assert(opts[0].max_power_mw == 0 || opts[0].max_power_mw == max_power(opts));
        }
    }
}

/// A power source advertises the power of its largest option: at least that
/// of every option, equal to one of them, and 0 when it has none.
pub proof fn law_source_power_is_largest_option(e: RawTypecEntry, sups: Seq<RawSupply>)
    ensures
        spec_source(e, sups) matches Some(src) ==> {
            &&& forall|i: int|
                0 <= i < src.options.len() ==> (#[trigger] src.options[i]).max_power_mw
                    <= src.max_power_mw
            &&& src.options.len() == 0 ==> src.max_power_mw == 0
            &&& src.options.len() > 0 ==> exists|i: int|
                0 <= i < src.options.len() && (#[trigger] src.options[i]).max_power_mw
                    == src.max_power_mw
        },
{
    if let Some(src) = spec_source(e, sups) {
        lemma_max_power_bounds(src.options);
    }
}

proof fn lemma_all_sources_from(es: Seq<RawTypecEntry>, sups: Seq<RawSupply>, m: int)
    requires
        0 <= m < all_sources(es, sups).len(),
    ensures
        exists|k: int|
            0 <= k < es.len() && spec_source(es[k], sups) == Some(
                #[trigger] all_sources(es, sups)[m],
            ),
    decreases es.len(),
{
    let d = es.drop_last();
    let a = all_sources(d, sups);
    if m < a.len() {
        lemma_all_sources_from(d, sups, m);
        let k = choose|k: int| 0 <= k < d.len() && spec_source(d[k], sups) == Some(#[trigger] a[m]);
        assert(es[k] == d[k]);
        assert(all_sources(es, sups)[m] == a[m]);
    } else {
        assert(all_sources(es, sups)[m] == spec_source(es[es.len() - 1], sups)->0);
    }
}

/// Every power source `build_snapshot` lists advertises the power of its
/// largest option (0 when it has none).
pub proof fn law_snapshot_source_power(raw: RawSysfs, m: int)
    requires
        0 <= m < spec_snapshot(raw).power_sources.len(),
    ensures
        ({
            let src = spec_snapshot(raw).power_sources[m];
            &&& forall|i: int|
                0 <= i < src.options.len() ==> (#[trigger] src.options[i]).max_power_mw
                    <= src.max_power_mw
            &&& src.options.len() == 0 ==> src.max_power_mw == 0
            &&& src.options.len() > 0 ==> exists|i: int|
                0 <= i < src.options.len() && (#[trigger] src.options[i]).max_power_mw
                    == src.max_power_mw
        }),
{
    let sorted = sorted_ports(raw.typec@);
    lemma_all_sources_from(sorted, raw.supplies@, m);
    let k = choose|k: int|
        0 <= k < sorted.len() && spec_source(sorted[k], raw.supplies@) == Some(
            #[trigger] all_sources(sorted, raw.supplies@)[m],
        );
    law_source_power_is_largest_option(sorted[k], raw.supplies@);
}

/// Builds the snapshot from what was read (`build_snapshot`): the ports in
/// key order, each port's power source and identities, the USB devices by
/// bus and device number, and the Thunderbolt devices.
pub fn build_snapshot(raw: &RawSysfs) -> (res: CableSnapshot)
    requires
        snapshot_in_range(*raw),
    ensures
        res@ == spec_snapshot(*raw),
{
    let ghost typec = raw.typec@;
    // Port entries and their keys.
    let mut idx: Vec<usize> = Vec::new();
    let mut names: Vec<Vec<char>> = Vec::new();
    let mut i: usize = 0;
    while i < raw.typec.len()
        invariant
            i <= typec.len(),
            typec == raw.typec@,
            idx@.len() == names@.len(),
            idx@.len() == port_entries(typec.take(i as int)).len(),
            forall|k: int| 0 <= k < idx@.len() ==> #[trigger] idx@[k] < i,
            forall|k: int|
                0 <= k < idx@.len() ==> port_entries(typec.take(i as int))[k]
                    == typec[#[trigger] idx@[k] as int],
            names@.map_values(|k: Vec<char>| k@) == entry_names(port_entries(typec.take(i as int))),
        decreases raw.typec.len() - i,
    {
        assert(typec.take(i + 1).drop_last() =~= typec.take(i as int));
        let ghost prev = port_entries(typec.take(i as int));
        let n = chars_of(raw.typec[i].name.as_str());
        if starts_with(&n, "port") && !contains_char(&n, '-') {
            let ghost before = names@.map_values(|k: Vec<char>| k@);
            idx.push(i);
            names.push(n);
            assert(names@.map_values(|k: Vec<char>| k@) =~= before.push(typec[i as int].name@));
            assert(port_entries(typec.take(i + 1)) =~= prev.push(typec[i as int]));
        } else {
            assert(port_entries(typec.take(i + 1)) =~= prev);
        }
        i = i + 1;
        assert(entry_names(port_entries(typec.take(i as int))) =~= names@.map_values(
            |k: Vec<char>| k@,
        ));
    }
    assert(typec.take(i as int) =~= typec);
    let ghost es = port_entries(typec);
    proof {
        lemma_port_entries_are_ports(typec);
    }
    let order = stable_order_text(&names);
    let ghost ord = as_ints(order@);
    proof {
        crate::order::lemma_order_by_text_len(entry_names(es), es.len() as int);
    }
    let ghost sorted = apply_order(es, ord);
    assert(sorted == sorted_ports(typec));

    let mut ports: Vec<UsbcPort> = Vec::new();
    let mut sources: Vec<PowerSource> = Vec::new();
    let mut identities: Vec<PdIdentity> = Vec::new();
    let mut j: usize = 0;
    while j < order.len()
        invariant
            j <= order@.len(),
            typec == raw.typec@,
            es == port_entries(typec),
            ord == as_ints(order@),
            ord.len() == es.len(),
            sorted == apply_order(es, ord),
            idx@.len() == es.len(),
            forall|k: int| 0 <= k < order@.len() ==> #[trigger] order@[k] < idx@.len(),
            forall|k: int| 0 <= k < idx@.len() ==> #[trigger] idx@[k] < typec.len(),
            forall|k: int| 0 <= k < idx@.len() ==> es[k] == typec[#[trigger] idx@[k] as int],
            forall|k: int| 0 <= k < es.len() ==> is_port_entry((#[trigger] es[k]).name@),
            snapshot_in_range(*raw),
            ports@.map_values(|p: UsbcPort| p@) == sorted.take(j as int).map_values(
                |e: RawTypecEntry| spec_port(e),
            ),
            sources@.map_values(|p: PowerSource| p@) == all_sources(
                sorted.take(j as int),
                raw.supplies@,
            ),
            identities@.map_values(|p: PdIdentity| p@) == all_identities(sorted.take(j as int)),
        decreases order.len() - j,
    {
        let k = idx[order[j]];
        let e = &raw.typec[k];
        assert(sorted[j as int] == *e);
        assert(is_port_entry(e.name@)) by {
            assert(es[order@[j as int] as int] == *e);
        }
        assert(sorted.take(j + 1).drop_last() =~= sorted.take(j as int));
        assert(sorted.take(j + 1).last() == *e);
        let ghost p0 = ports@.map_values(|p: UsbcPort| p@);
        let port = build_port(e);
        ports.push(port);
        assert(ports@.map_values(|p: UsbcPort| p@) =~= p0.push(spec_port(*e)));
        assert(ports@.map_values(|p: UsbcPort| p@) =~= sorted.take(j + 1).map_values(
            |e: RawTypecEntry| spec_port(e),
        ));
        push_port_identities(&mut identities, e);
        match build_source(e, &raw.supplies) {
            Some(src) => {
                sources.push(src);
            },
            None => {},
        }
        assert(sources@.map_values(|p: PowerSource| p@) =~= all_sources(
            sorted.take(j + 1),
            raw.supplies@,
        ));
        j = j + 1;
    }
    assert(sorted.take(j as int) =~= sorted);
    let snap = CableSnapshot {
        ports,
        power_sources: sources,
        identities,
        usb_devices: build_usb_devices(&raw.usb_devices),
        thunderbolt_devices: build_tb_devices(&raw.thunderbolt_devices),
    };
    snap
}

} // verus!
