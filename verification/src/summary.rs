//! Plain-English interpretation of one port: headline, subtitle and bullet
//! points, plus the charging diagnostic that names the bottleneck.
use vstd::prelude::*;
use crate::pdvdo::{CableType, CableVdo, IdHeader, ProductType};
use crate::snapshot::{derefs, PdEndpoint, PdIdentity, PowerSource, UsbcPort};
use crate::strings::{dec, join, owned, push_dec, push_str, views};
use crate::vendor::{label_for, spec_label_for};

verus! {

/// Overall state of a port.
#[derive(Debug, Clone, Copy, PartialEq, Eq, Structural)]
pub enum Status {
    Empty,
    Charging,
    DataDevice,
    ThunderboltCable,
    DisplayCable,
    Unknown,
}

impl Status {
    pub open spec fn spec_as_str(self) -> Seq<char> {
        match self {
            Status::Empty => "empty"@,
            Status::Charging => "charging"@,
            Status::DataDevice => "dataDevice"@,
            Status::ThunderboltCable => "thunderboltCable"@,
            Status::DisplayCable => "displayCable"@,
            Status::Unknown => "unknown"@,
        }
    }

    pub fn as_str(self) -> (res: &'static str)
        ensures
            res@ == self.spec_as_str(),
    {
        match self {
            Status::Empty => "empty",
            Status::Charging => "charging",
            Status::DataDevice => "dataDevice",
            Status::ThunderboltCable => "thunderboltCable",
            Status::DisplayCable => "displayCable",
            Status::Unknown => "unknown",
        }
    }
}

/// What `summarize` says about a port.
#[derive(Debug, Clone)]
pub struct PortSummary {
    pub status: Status,
    pub headline: String,
    pub subtitle: String,
    pub bullets: Vec<String>,
}

/// The power figures of one source as text, in the form the formatter shows
/// them: one entry per advertised option (`"5V/3.00A"`) and, when both are
/// known, the negotiated voltage, current and power (`"20V @ 2.50A (50.0W)"`).
#[derive(Debug, Clone)]
pub struct PowerText {
    pub pdos: Vec<String>,
    pub negotiated: Option<String>,
}

/// `t` holds one text per option of `s`, and a negotiated text exactly when
/// `s` knows both the negotiated voltage and current.
pub open spec fn text_fits(s: PowerSource, t: PowerText) -> bool {
    &&& t.pdos@.len() == s.options@.len()
    &&& (t.negotiated is Some <==> (s.negotiated_mv is Some && s.negotiated_ma is Some))
}

/// `texts` describes `sources`, entry by entry.
pub open spec fn texts_fit(sources: Seq<PowerSource>, texts: Seq<PowerText>) -> bool {
    &&& texts.len() == sources.len()
    &&& forall|i: int| 0 <= i < sources.len() ==> text_fits(#[trigger] sources[i], texts[i])
}

// ---------------------------------------------------------------------------
// Choosing the charging source
// ---------------------------------------------------------------------------

/// Index of the source with the largest `max_power_mw`, the last one among
/// equals; -1 for no sources.
pub open spec fn pref_index(s: Seq<PowerSource>) -> int
    decreases s.len(),
{
    if s.len() == 0 {
        -1
    } else {
        let p = pref_index(s.drop_last());
        if p < 0 || s.last().max_power_mw >= s[p].max_power_mw {
            s.len() - 1
        } else {
            p
        }
    }
}

proof fn lemma_pref_index_range(s: Seq<PowerSource>)
    ensures
        s.len() == 0 ==> pref_index(s) == -1,
        s.len() > 0 ==> 0 <= pref_index(s) < s.len(),
    decreases s.len(),
{
    if s.len() > 0 {
        lemma_pref_index_range(s.drop_last());
    }
}

fn preferred_index(sources: &[&PowerSource]) -> (res: Option<usize>)
    ensures
        res is None <==> sources@.len() == 0,
        res matches Some(i) ==> i == pref_index(derefs(sources@)),
        res matches Some(i) ==> i < sources@.len(),
{
    let ghost s = derefs(sources@);
    let mut best: Option<usize> = None;
    let mut i: usize = 0;
    while i < sources.len()
        invariant
            i <= sources@.len(),
            s == derefs(sources@),
            best is None <==> i == 0,
            best matches Some(b) ==> b == pref_index(s.take(i as int)) && b < i,
        decreases sources.len() - i,
    {
        assert(s.take(i + 1).drop_last() =~= s.take(i as int));
        proof {
            lemma_pref_index_range(s.take(i as int));
        }
        match best {
            None => {
                best = Some(i);
            },
            Some(b) => {
                if sources[i].max_power_mw >= sources[b].max_power_mw {
                    best = Some(i);
                }
            },
        }
        i = i + 1;
    }
    assert(s.take(i as int) =~= s);
    best
}

/// The source `max_by_key(max_power_mw)` picks: largest advertised power,
/// the last one among equals.
pub fn preferred_charging_source<'a>(sources: &'a [&PowerSource]) -> (res: Option<&'a PowerSource>)
    ensures
        res is None <==> sources@.len() == 0,
        res matches Some(r) ==> *r == derefs(sources@)[pref_index(derefs(sources@))],
{
    match preferred_index(sources) {
        Some(i) => Some(sources[i]),
        None => None,
    }
}

/// The source `preferred_charging_source` picks advertises the most power of
/// all, and every later source advertises strictly less.
pub proof fn law_preferred_is_last_maximum(s: Seq<PowerSource>)
    requires
        s.len() > 0,
    ensures
        0 <= pref_index(s) < s.len(),
        forall|j: int|
            0 <= j < s.len() ==> (#[trigger] s[j]).max_power_mw <= s[pref_index(s)].max_power_mw,
        forall|j: int|
            pref_index(s) < j < s.len() ==> (#[trigger] s[j]).max_power_mw < s[pref_index(
                s,
            )].max_power_mw,
    decreases s.len(),
{
    lemma_pref_index_range(s);
    if s.len() > 1 {
        law_preferred_is_last_maximum(s.drop_last());
        let p = pref_index(s.drop_last());
        assert forall|j: int| 0 <= j < s.len() implies (#[trigger] s[j]).max_power_mw <= s[pref_index(
            s,
        )].max_power_mw by {
            if j < s.len() - 1 {
                assert(s[j] == s.drop_last()[j]);
            }
        }
        assert forall|j: int| pref_index(s) < j < s.len() implies (#[trigger] s[j]).max_power_mw < s[pref_index(
            s,
        )].max_power_mw by {
            if j < s.len() - 1 {
                assert(s[j] == s.drop_last()[j]);
            }
        }
    }
}

// ---------------------------------------------------------------------------
// Finding identities
// ---------------------------------------------------------------------------

/// Index of the first identity from endpoint `e`; -1 if there is none.
pub open spec fn first_with(ids: Seq<PdIdentity>, e: PdEndpoint) -> int
    decreases ids.len(),
{
    if ids.len() == 0 {
        -1
    } else if ids[0].endpoint == e {
        0
    } else {
        let r = first_with(ids.drop_first(), e);
        if r < 0 {
            -1
        } else {
            r + 1
        }
    }
}

pub(crate) proof fn lemma_first_with(ids: Seq<PdIdentity>, e: PdEndpoint, i: int)
    requires
        0 <= i <= ids.len(),
        forall|j: int| 0 <= j < i ==> (#[trigger] ids[j]).endpoint != e,
        i < ids.len() ==> ids[i].endpoint == e,
    ensures
        first_with(ids, e) == (if i < ids.len() {
            i
        } else {
            -1
        }),
    decreases i,
{
    if ids.len() > 0 && i > 0 {
        let t = ids.drop_first();
        assert forall|j: int| 0 <= j < i - 1 implies (#[trigger] t[j]).endpoint != e by {
            assert(t[j] == ids[j + 1]);
        }
        lemma_first_with(t, e, i - 1);
    }
}

pub(crate) fn find_endpoint(ids: &[&PdIdentity], e: PdEndpoint) -> (res: Option<usize>)
    ensures
        res is None <==> first_with(derefs(ids@), e) < 0,
        res matches Some(i) ==> i == first_with(derefs(ids@), e) && i < ids@.len(),
{
    let ghost s = derefs(ids@);
    let mut i: usize = 0;
    while i < ids.len()
        invariant
            i <= ids@.len(),
            s == derefs(ids@),
            forall|j: int| 0 <= j < i ==> (#[trigger] s[j]).endpoint != e,
        decreases ids.len() - i,
    {
        if ids[i].endpoint == e {
            proof {
                lemma_first_with(s, e, i as int);
            }
            return Some(i);
        }
        i = i + 1;
    }
    proof {
        lemma_first_with(s, e, i as int);
    }
    None
}

// ---------------------------------------------------------------------------
// Specification of `summarize`
// ---------------------------------------------------------------------------

/// The port negotiated USB Power Delivery.
pub open spec fn pd_active(port: UsbcPort) -> bool {
    port.power_operation_mode matches Some(m) && m@ == "usb_power_delivery"@
}

/// Whole watts of `mw`, rounded half up.
pub open spec fn round_w(mw: u32) -> nat {
    ((mw as nat + 500) / 1000) as nat
}

/// The charger wattage `summarize` shows: that of the chosen source, when it
/// advertises options and the rounded figure is positive.
pub open spec fn charger_w(s: Seq<PowerSource>) -> Option<nat> {
    let i = pref_index(s);
    if i < 0 || s[i].options@.len() == 0 || round_w(s[i].max_power_mw) == 0 {
        None
    } else {
        Some(round_w(s[i].max_power_mw))
    }
}

/// `summarize` adds 500 to the chosen source's power, which must not overflow.
pub open spec fn summarize_in_range(s: Seq<PowerSource>) -> bool {
    let i = pref_index(s);
    i >= 0 && s[i].options@.len() > 0 ==> s[i].max_power_mw + 500 <= u32::MAX
}

pub open spec fn alt_bullets(port: UsbcPort) -> Seq<Seq<char>> {
    if port.spec_has_active(0x8087) {
        seq!["Thunderbolt / USB4 alt mode active"@]
    } else if port.spec_has_active(0xff01) {
        seq!["Carrying DisplayPort video"@]
    } else {
        seq![]
    }
}

pub open spec fn pd_bullets(port: UsbcPort) -> Seq<Seq<char>> {
    if pd_active(port) {
        seq!["USB Power Delivery negotiated"@]
    } else {
        seq![]
    }
}

pub open spec fn emarker_bullets(port: UsbcPort, ids: Seq<PdIdentity>) -> Seq<Seq<char>> {
    if first_with(ids, PdEndpoint::SopPrime) >= 0 {
        seq!["Cable has an e-marker chip (advertises its capabilities)"@]
    } else if port.cable_present {
        seq!["Cable e-marker present (no identity exposed by kernel)"@]
    } else {
        seq!["Cable does not advertise an e-marker (basic cable)"@]
    }
}

pub open spec fn power_bullets(s: Seq<PowerSource>, texts: Seq<PowerText>) -> Seq<Seq<char>> {
    let i = pref_index(s);
    if i < 0 {
        seq![]
    } else {
        let src = s[i];
        let t = texts[i];
        let advertised = if src.options@.len() > 0 {
            (match charger_w(s) {
                Some(w) => seq!["Charger advertises up to "@ + dec(w) + "W"@],
                None => seq![],
            }) + seq!["PDOs: "@ + join(views(t.pdos@), ", "@)]
        } else {
            seq![]
        };
        let negotiated = match (src.negotiated_mv, src.negotiated_ma, t.negotiated) {
            (Some(_), Some(_), Some(n)) => seq!["Currently negotiated: "@ + n@],
            _ => seq![],
        };
        let usb_type = match src.usb_type {
            Some(u) => seq!["Power supply usb_type: "@ + u@],
            None => seq![],
        };
        advertised + negotiated + usb_type
    }
}

pub open spec fn cable_vdo_bullets(id: PdIdentity) -> Seq<Seq<char>> {
    match id.cable_vdo {
        Some(cv) => seq![
            "Cable speed: "@ + cv.speed.spec_label(),
            "Cable rated for "@ + cv.current.spec_label() + " at up to "@ + dec(
                cv.max_volts as nat,
            ) + "V (~"@ + dec(cv.max_watts as nat) + "W)"@,
        ] + if cv.cable_type == CableType::Active {
            seq!["Active cable (contains signal-conditioning electronics)"@]
        } else {
            seq![]
        },
        None => seq![],
    }
}

pub open spec fn cable_bullets(port: UsbcPort, ids: Seq<PdIdentity>) -> Seq<Seq<char>> {
    let c = first_with(ids, PdEndpoint::SopPrime);
    if c >= 0 {
        let id = ids[c];
        cable_vdo_bullets(id) + if id.vendor_id != 0 {
            seq!["Cable made by "@ + spec_label_for(id.vendor_id)]
        } else {
            seq![]
        }
    } else {
        match port.cable_type {
            Some(t) => seq!["Cable type: "@ + t@],
            None => seq![],
        }
    }
}

/// The kind of device an ID Header describes: the UFP type unless it is
/// undefined, then the DFP type.
pub open spec fn device_kind(h: IdHeader) -> Seq<char> {
    if h.ufp_product_type == ProductType::Undefined {
        h.dfp_product_type.spec_label()
    } else {
        h.ufp_product_type.spec_label()
    }
}

pub open spec fn partner_bullets(ids: Seq<PdIdentity>) -> Seq<Seq<char>> {
    let p = first_with(ids, PdEndpoint::Sop);
    if p >= 0 {
        let id = ids[p];
        match id.id_header {
            Some(h) => seq![
                "Connected device: "@ + device_kind(h) + " \u{2014} "@ + spec_label_for(id.vendor_id),
            ],
            None => if id.vendor_id != 0 {
                seq!["Connected device vendor: "@ + spec_label_for(id.vendor_id)]
            } else {
                seq![]
            },
        }
    } else {
        seq![]
    }
}

/// The bullet points `summarize` lists.
pub open spec fn spec_bullets(
    port: UsbcPort,
    s: Seq<PowerSource>,
    ids: Seq<PdIdentity>,
    texts: Seq<PowerText>,
) -> Seq<Seq<char>> {
    if !port.spec_connected() {
        seq![]
    } else {
        alt_bullets(port) + pd_bullets(port) + emarker_bullets(port, ids) + power_bullets(s, texts)
            + cable_bullets(port, ids) + partner_bullets(ids)
    }
}

pub open spec fn spec_status(port: UsbcPort, s: Seq<PowerSource>, ids: Seq<PdIdentity>) -> Status {
    if !port.spec_connected() {
        Status::Empty
    } else if port.spec_has_active(0x8087) {
        Status::ThunderboltCable
    } else if port.spec_has_active(0xff01) {
        Status::DisplayCable
    } else if pd_active(port) && first_with(ids, PdEndpoint::Sop) >= 0 {
        Status::DataDevice
    } else if s.len() > 0 {
        Status::Charging
    } else {
        Status::Unknown
    }
}

pub open spec fn charger_suffix(s: Seq<PowerSource>) -> Seq<char> {
    match charger_w(s) {
        Some(w) => " \u{b7} "@ + dec(w) + "W charger"@,
        None => Seq::empty(),
    }
}

pub open spec fn spec_headline(port: UsbcPort, s: Seq<PowerSource>, ids: Seq<PdIdentity>) -> Seq<
    char,
> {
    match spec_status(port, s, ids) {
        Status::Empty => "Nothing connected"@,
        Status::ThunderboltCable => "Thunderbolt / USB4"@ + charger_suffix(s),
        Status::DisplayCable => "Display connected"@ + charger_suffix(s),
        Status::DataDevice => "USB device"@ + charger_suffix(s),
        Status::Charging => "Charging"@ + charger_suffix(s),
        _ => "Connected"@,
    }
}

/// The subtitle `subtitle_for` builds from the capabilities present.
pub open spec fn spec_subtitle_for(usb3: bool, dp: bool, emarker: bool) -> Seq<char> {
    let parts = (if usb3 {
        seq!["high-speed data"@]
    } else {
        seq![]
    }) + (if dp {
        seq!["video"@]
    } else {
        seq![]
    }) + (if emarker {
        seq!["smart cable"@]
    } else {
        seq![]
    });
    if parts.len() == 0 {
        "Connected."@
    } else {
        "Supports "@ + join(parts, ", "@) + "."@
    }
}

pub open spec fn spec_subtitle(port: UsbcPort, s: Seq<PowerSource>, ids: Seq<PdIdentity>) -> Seq<
    char,
> {
    match spec_status(port, s, ids) {
        Status::Empty => "Plug a cable into "@ + port.name@ + " to see what it can do."@,
        Status::ThunderboltCable => spec_subtitle_for(
            true,
            port.spec_has_active(0xff01),
            first_with(ids, PdEndpoint::SopPrime) >= 0,
        ),
        Status::DisplayCable => "DisplayPort video over USB-C alt mode."@,
        Status::DataDevice => "PD-capable partner connected."@,
        Status::Charging => "Power is flowing."@,
        _ => if port.cable_present || port.partner_present {
            "Cable/partner attached, but kernel did not expose detailed capabilities."@
        } else {
            "Couldn't determine cable type from this port."@
        },
    }
}

// ---------------------------------------------------------------------------
// Implementation of `summarize`
// ---------------------------------------------------------------------------

fn push_line(b: &mut Vec<String>, s: String)
    ensures
        views(final(b)@) == views(old(b)@).push(s@),
{
    let ghost before = views(b@);
    b.push(s);
    assert(views(b@) =~= before.push(s@));
}

fn push_lit(b: &mut Vec<String>, t: &str)
    ensures
        views(final(b)@) == views(old(b)@).push(t@),
{
    push_line(b, owned(t));
}

fn is_pd_active(port: &UsbcPort) -> (res: bool)
    ensures
        res == pd_active(*port),
{
    match &port.power_operation_mode {
        Some(m) => crate::strings::str_eq(m.as_str(), "usb_power_delivery"),
        None => false,
    }
}

/// The subtitle listing what a connection supports.
fn subtitle_for(usb3: bool, dp: bool, emarker: bool) -> (res: String)
    ensures
        res@ == spec_subtitle_for(usb3, dp, emarker),
{
    let mut parts: Vec<String> = Vec::new();
    if usb3 {
        push_lit(&mut parts, "high-speed data");
    }
    if dp {
        push_lit(&mut parts, "video");
    }
    if emarker {
        push_lit(&mut parts, "smart cable");
    }
    assert(views(parts@) =~= (if usb3 {
        seq!["high-speed data"@]
    } else {
        seq![]
    }) + (if dp {
        seq!["video"@]
    } else {
        seq![]
    }) + (if emarker {
        seq!["smart cable"@]
    } else {
        seq![]
    }));
    if parts.len() == 0 {
        return owned("Connected.");
    }
    let mut s = owned("Supports ");
    let joined = crate::strings::join_strings(&parts, ", ");
    push_str(&mut s, joined.as_str());
    push_str(&mut s, ".");
    s
}

fn compute_charger_w(sources: &[&PowerSource], chosen: Option<usize>) -> (res: Option<u32>)
    requires
        summarize_in_range(derefs(sources@)),
        chosen is None <==> sources@.len() == 0,
        chosen matches Some(i) ==> i == pref_index(derefs(sources@)) && i < sources@.len(),
    ensures
        match res {
            Some(w) => charger_w(derefs(sources@)) == Some(w as nat),
            None => charger_w(derefs(sources@)) is None,
        },
{
    proof {
        lemma_pref_index_range(derefs(sources@));
    }
    match chosen {
        Some(i) => {
            let s = sources[i];
            if s.options.len() == 0 {
                None
            } else {
                let w = (s.max_power_mw + 500) / 1000;
                if w > 0 {
                    Some(w)
                } else {
                    None
                }
            }
        },
        None => None,
    }
}

fn push_power_bullets(
    b: &mut Vec<String>,
    sources: &[&PowerSource],
    texts: &[&PowerText],
    chosen: Option<usize>,
    cw: Option<u32>,
)
    requires
        texts_fit(derefs(sources@), derefs(texts@)),
        chosen is None <==> sources@.len() == 0,
        chosen matches Some(i) ==> i == pref_index(derefs(sources@)) && i < sources@.len(),
        match cw {
            Some(w) => charger_w(derefs(sources@)) == Some(w as nat),
            None => charger_w(derefs(sources@)) is None,
        },
    ensures
        views(final(b)@) == views(old(b)@) + power_bullets(derefs(sources@), derefs(texts@)),
{
    let ghost s = derefs(sources@);
    let ghost ts = derefs(texts@);
    let ghost start = views(b@);
    proof {
        lemma_pref_index_range(s);
    }
    match chosen {
        None => {
            assert(views(b@) =~= start + power_bullets(s, ts));
        },
        Some(i) => {
            let src = sources[i];
            let t = texts[i];
            assert(text_fits(s[i as int], ts[i as int]));
            let ghost adv: Seq<Seq<char>> = if src.options@.len() > 0 {
                (match charger_w(s) {
                    Some(w) => seq!["Charger advertises up to "@ + dec(w) + "W"@],
                    None => seq![],
                }) + seq!["PDOs: "@ + join(views(t.pdos@), ", "@)]
            } else {
                seq![]
            };
            if src.options.len() != 0 {
                if let Some(w) = cw {
                    let mut line = owned("Charger advertises up to ");
                    push_dec(&mut line, w as u64);
                    push_str(&mut line, "W");
                    push_line(b, line);
                }
                let mut line = owned("PDOs: ");
                let joined = crate::strings::join_strings(&t.pdos, ", ");
                push_str(&mut line, joined.as_str());
                push_line(b, line);
            }
            assert(views(b@) =~= start + adv);
            match (src.negotiated_mv, src.negotiated_ma, &t.negotiated) {
                (Some(_), Some(_), Some(n)) => {
                    let mut line = owned("Currently negotiated: ");
                    push_str(&mut line, n.as_str());
                    push_line(b, line);
                },
                _ => {},
            }
            match &src.usb_type {
                Some(u) => {
                    let mut line = owned("Power supply usb_type: ");
                    push_str(&mut line, u.as_str());
                    push_line(b, line);
                },
                None => {},
            }
            assert(views(b@) =~= start + power_bullets(s, ts));
        },
    }
}

fn push_cable_bullets(b: &mut Vec<String>, port: &UsbcPort, ids: &[&PdIdentity], emarker: Option<
    usize,
>)
    requires
        emarker is None <==> first_with(derefs(ids@), PdEndpoint::SopPrime) < 0,
        emarker matches Some(c) ==> c == first_with(derefs(ids@), PdEndpoint::SopPrime) && c
            < ids@.len(),
    ensures
        views(final(b)@) == views(old(b)@) + cable_bullets(*port, derefs(ids@)),
{
    let ghost s = derefs(ids@);
    let ghost start = views(b@);
    match emarker {
        Some(c) => {
            let cable = ids[c];
            match cable.cable_vdo {
                Some(cv) => {
                    let mut l1 = owned("Cable speed: ");
                    push_str(&mut l1, cv.speed.label());
                    push_line(b, l1);
                    let mut l2 = owned("Cable rated for ");
                    push_str(&mut l2, cv.current.label());
                    push_str(&mut l2, " at up to ");
                    push_dec(&mut l2, cv.max_volts as u64);
                    push_str(&mut l2, "V (~");
                    push_dec(&mut l2, cv.max_watts as u64);
                    push_str(&mut l2, "W)");
                    push_line(b, l2);
                    if cv.cable_type == CableType::Active {
                        push_lit(b, "Active cable (contains signal-conditioning electronics)");
                    }
                },
                None => {},
            }
            assert(views(b@) =~= start + cable_vdo_bullets(s[c as int]));
            if cable.vendor_id != 0 {
                let mut l = owned("Cable made by ");
                let v = label_for(cable.vendor_id);
                push_str(&mut l, v.as_str());
                push_line(b, l);
            }
            assert(views(b@) =~= start + cable_bullets(*port, s));
        },
        None => {
            match &port.cable_type {
                Some(t) => {
                    let mut l = owned("Cable type: ");
                    push_str(&mut l, t.as_str());
                    push_line(b, l);
                },
                None => {},
            }
            assert(views(b@) =~= start + cable_bullets(*port, s));
        },
    }
}

fn push_partner_bullets(b: &mut Vec<String>, ids: &[&PdIdentity], partner: Option<usize>)
    requires
        partner is None <==> first_with(derefs(ids@), PdEndpoint::Sop) < 0,
        partner matches Some(c) ==> c == first_with(derefs(ids@), PdEndpoint::Sop) && c
            < ids@.len(),
    ensures
        views(final(b)@) == views(old(b)@) + partner_bullets(derefs(ids@)),
{
    let ghost s = derefs(ids@);
    let ghost start = views(b@);
    match partner {
        Some(c) => {
            let p = ids[c];
            match p.id_header {
                Some(h) => {
                    let kind = if h.ufp_product_type == ProductType::Undefined {
                        h.dfp_product_type.label()
                    } else {
                        h.ufp_product_type.label()
                    };
                    let mut l = owned("Connected device: ");
                    push_str(&mut l, kind);
                    push_str(&mut l, " \u{2014} ");
                    let v = label_for(p.vendor_id);
                    push_str(&mut l, v.as_str());
                    push_line(b, l);
                },
                None => {
                    if p.vendor_id != 0 {
                        let mut l = owned("Connected device vendor: ");
                        let v = label_for(p.vendor_id);
                        push_str(&mut l, v.as_str());
                        push_line(b, l);
                    }
                },
            }
            assert(views(b@) =~= start + partner_bullets(s));
        },
        None => {
            assert(views(b@) =~= start + partner_bullets(s));
        },
    }
}

/// Summarizes one port: status, headline, subtitle and bullet points.
/// `sources` and `identities` are the port's own; `texts` gives, for each
/// source, its power figures as text.
pub fn summarize(
    port: &UsbcPort,
    sources: &[&PowerSource],
    identities: &[&PdIdentity],
    texts: &[&PowerText],
) -> (res: PortSummary)
    requires
        summarize_in_range(derefs(sources@)),
        texts_fit(derefs(sources@), derefs(texts@)),
    ensures
        res.status == spec_status(*port, derefs(sources@), derefs(identities@)),
        res.headline@ == spec_headline(*port, derefs(sources@), derefs(identities@)),
        res.subtitle@ == spec_subtitle(*port, derefs(sources@), derefs(identities@)),
        views(res.bullets@) == spec_bullets(
            *port,
            derefs(sources@),
            derefs(identities@),
            derefs(texts@),
        ),
{
    let ghost s = derefs(sources@);
    let ghost ids = derefs(identities@);
    let connected = port.connected();
    let has_tb = port.has_active_tbt();
    let has_dp = port.has_active_dp();
    let pd = is_pd_active(port);
    let emarker = find_endpoint(identities, PdEndpoint::SopPrime);
    let partner = find_endpoint(identities, PdEndpoint::Sop);
    let chosen = preferred_index(sources);
    let cw = compute_charger_w(sources, chosen);

    if !connected {
        let mut sub = owned("Plug a cable into ");
        push_str(&mut sub, port.name.as_str());
        push_str(&mut sub, " to see what it can do.");
        let bullets: Vec<String> = Vec::new();
        assert(views(bullets@) =~= seq![]);
        return PortSummary {
            status: Status::Empty,
            headline: owned("Nothing connected"),
            subtitle: sub,
            bullets,
        };
    }
    let mut bullets: Vec<String> = Vec::new();
    assert(views(bullets@) =~= Seq::<Seq<char>>::empty());
    if has_tb {
        push_lit(&mut bullets, "Thunderbolt / USB4 alt mode active");
    } else if has_dp {
        push_lit(&mut bullets, "Carrying DisplayPort video");
    }
    assert(views(bullets@) =~= alt_bullets(*port));
    if pd {
        push_lit(&mut bullets, "USB Power Delivery negotiated");
    }
    assert(views(bullets@) =~= alt_bullets(*port) + pd_bullets(*port));
    if emarker.is_some() {
        push_lit(&mut bullets, "Cable has an e-marker chip (advertises its capabilities)");
    } else if port.cable_present {
        push_lit(&mut bullets, "Cable e-marker present (no identity exposed by kernel)");
    } else {
        push_lit(&mut bullets, "Cable does not advertise an e-marker (basic cable)");
    }
    assert(views(bullets@) =~= alt_bullets(*port) + pd_bullets(*port) + emarker_bullets(
        *port,
        ids,
    ));
    push_power_bullets(&mut bullets, sources, texts, chosen, cw);
    push_cable_bullets(&mut bullets, port, identities, emarker);
    push_partner_bullets(&mut bullets, identities, partner);
    assert(views(bullets@) =~= spec_bullets(*port, s, ids, derefs(texts@)));

    let mut suffix = String::new();
    if let Some(w) = cw {
        push_str(&mut suffix, " \u{b7} ");
        push_dec(&mut suffix, w as u64);
        push_str(&mut suffix, "W charger");
    }
    assert(suffix@ =~= charger_suffix(s));

    let (status, headline, subtitle) = if has_tb {
        let mut h = owned("Thunderbolt / USB4");
        push_str(&mut h, suffix.as_str());
        (Status::ThunderboltCable, h, subtitle_for(true, has_dp, emarker.is_some()))
    } else if has_dp {
        let mut h = owned("Display connected");
        push_str(&mut h, suffix.as_str());
        (Status::DisplayCable, h, owned("DisplayPort video over USB-C alt mode."))
    } else if pd && partner.is_some() {
        let mut h = owned("USB device");
        push_str(&mut h, suffix.as_str());
        (Status::DataDevice, h, owned("PD-capable partner connected."))
    } else if chosen.is_some() {
        let mut h = owned("Charging");
        push_str(&mut h, suffix.as_str());
        (Status::Charging, h, owned("Power is flowing."))
    } else if port.cable_present || port.partner_present {
        (
            Status::Unknown,
            owned("Connected"),
            owned("Cable/partner attached, but kernel did not expose detailed capabilities."),
        )
    } else {
        (Status::Unknown, owned("Connected"), owned("Couldn't determine cable type from this port."))
    };
    PortSummary { status, headline, subtitle, bullets }
}

/// A port with nothing plugged in is reported as empty, with no bullet
/// points; a connected port never is.
pub proof fn law_empty_iff_disconnected(
    port: UsbcPort,
    s: Seq<PowerSource>,
    ids: Seq<PdIdentity>,
    texts: Seq<PowerText>,
)
    ensures
        (spec_status(port, s, ids) == Status::Empty) == !port.spec_connected(),
        !port.spec_connected() ==> spec_bullets(port, s, ids, texts).len() == 0,
        port.spec_connected() ==> spec_bullets(port, s, ids, texts).len() > 0,
{
    if port.spec_connected() {
        let b = spec_bullets(port, s, ids, texts);
        let e = emarker_bullets(port, ids);
        assert(e.len() == 1);
        assert((alt_bullets(port) + pd_bullets(port) + e).len() >= 1);
    }
}

// ---------------------------------------------------------------------------
// Charging diagnostic
// ---------------------------------------------------------------------------

/// What limits charging on a port.
#[derive(Debug, Clone, Copy)]
pub enum Bottleneck {
    NoCharger,
    ChargerLimit { charger_w: u32 },
    CableLimit { cable_w: u32, charger_w: u32 },
    MacLimit { negotiated_w: u32, charger_w: u32, cable_w: Option<u32> },
    Fine { negotiated_w: u32 },
}

impl Bottleneck {
    pub open spec fn spec_label(self) -> Seq<char> {
        match self {
            Bottleneck::NoCharger => "noCharger"@,
            Bottleneck::ChargerLimit { .. } => "chargerLimit"@,
            Bottleneck::CableLimit { .. } => "cableLimit"@,
            Bottleneck::MacLimit { .. } => "macLimit"@,
            Bottleneck::Fine { .. } => "fine"@,
        }
    }

    pub fn label(self) -> (res: &'static str)
        ensures
            res@ == self.spec_label(),
    {
        match self {
            Bottleneck::NoCharger => "noCharger",
            Bottleneck::ChargerLimit { .. } => "chargerLimit",
            Bottleneck::CableLimit { .. } => "cableLimit",
            Bottleneck::MacLimit { .. } => "macLimit",
            Bottleneck::Fine { .. } => "fine",
        }
    }
}

/// The charging verdict for one port.
#[derive(Debug, Clone)]
pub struct ChargingDiagnostic {
    pub bottleneck: Bottleneck,
    pub summary: String,
    pub detail: String,
    pub is_warning: bool,
}

/// Watts of the first cable e-marker's VDO, if the first SOP' identity has one.
pub open spec fn diag_cable_w(ids: Seq<PdIdentity>) -> Option<u32> {
    let c = first_with(ids, PdEndpoint::SopPrime);
    if c < 0 {
        None
    } else {
        match ids[c].cable_vdo {
            Some(cv) => Some(cv.max_watts),
            None => None,
        }
    }
}

/// The charger's wattage: the larger of advertised and negotiated, rounded.
pub open spec fn diag_charger_w(src: PowerSource) -> nat {
    let adv = round_w(src.max_power_mw);
    let neg = match src.spec_negotiated_mw() {
        Some(w) => round_w(w),
        None => 0,
    };
    if adv >= neg {
        adv
    } else {
        neg
    }
}

pub open spec fn max_nat(a: nat, b: nat) -> nat {
    if a >= b {
        a
    } else {
        b
    }
}

/// Whether `diagnose` answers: there is a charging source, something is
/// plugged in, and the source advertises or negotiated some power.
pub open spec fn diagnoses(port: UsbcPort, s: Seq<PowerSource>) -> bool {
    let i = pref_index(s);
    &&& i >= 0
    &&& port.spec_connected()
    &&& !(s[i].max_power_mw == 0 && s[i].spec_negotiated_mw() is None)
}

/// `diagnose` adds 500 to the advertised and negotiated milliwatts of the
/// chosen source when it gives a verdict; that must not overflow.
pub open spec fn diagnose_in_range(port: UsbcPort, s: Seq<PowerSource>) -> bool {
    diagnoses(port, s) ==> {
        let src = s[pref_index(s)];
        &&& src.max_power_mw + 500 <= u32::MAX
        &&& (src.spec_negotiated_mw() matches Some(w) ==> w + 500 <= u32::MAX)
    }
}

/// Whether `summarize` and `diagnose` can work on `port` with its own
/// `sources` without overflowing (`summarize_in_range`, `diagnose_in_range`).
pub fn port_in_range(port: &UsbcPort, sources: &[&PowerSource]) -> (res: bool)
    ensures
        res == (summarize_in_range(derefs(sources@)) && diagnose_in_range(*port, derefs(sources@))),
{
    proof {
        lemma_pref_index_range(derefs(sources@));
    }
    match preferred_index(sources) {
        Some(i) => {
            let src = sources[i];
            let fits_max = src.max_power_mw <= u32::MAX - 500;
            let fits_negotiated = match src.negotiated_mw() {
                Some(w) => w <= u32::MAX - 500,
                None => true,
            };
            let summarize_ok = src.options.len() == 0 || fits_max;
            let gives_verdict = port.connected() && !(src.max_power_mw == 0
                && src.negotiated_mw().is_none());
            summarize_ok && (!gives_verdict || (fits_max && fits_negotiated))
        },
        None => true,
    }
}

/// Whether `texts` describes `sources`, entry by entry (`texts_fit`).
pub fn texts_match(sources: &Vec<PowerSource>, texts: &Vec<PowerText>) -> (res: bool)
    ensures
        res == texts_fit(sources@, texts@),
{
    if sources.len() != texts.len() {
        return false;
    }
    let mut i: usize = 0;
    while i < sources.len()
        invariant
            i <= sources@.len(),
            sources@.len() == texts@.len(),
            forall|j: int| 0 <= j < i ==> text_fits(#[trigger] sources@[j], texts@[j]),
        decreases sources.len() - i,
    {
        let s = &sources[i];
        let t = &texts[i];
        let has_both = s.negotiated_mv.is_some() && s.negotiated_ma.is_some();
        if t.pdos.len() != s.options.len() || t.negotiated.is_some() != has_both {
            assert(!text_fits(sources@[i as int], texts@[i as int]));
            return false;
        }
        i = i + 1;
    }
    true
}

/// The bottleneck `diagnose` names, when it gives a verdict.
pub open spec fn spec_bottleneck(s: Seq<PowerSource>, ids: Seq<PdIdentity>) -> Bottleneck {
    let src = s[pref_index(s)];
    let ch = diag_charger_w(src);
    let cw = diag_cable_w(ids);
    if cw matches Some(c) && c < ch {
        Bottleneck::CableLimit { cable_w: cw->0, charger_w: ch as u32 }
    } else {
        match src.spec_negotiated_mw() {
            Some(w) => {
                let n = round_w(w);
                let cable_ok = match cw {
                    Some(c) => n + max_nat(5, c as nat / 10) < c,
                    None => true,
                };
                if ch > 0 && n + max_nat(5, ch / 10) < ch && cable_ok {
                    Bottleneck::MacLimit { negotiated_w: n as u32, charger_w: ch as u32, cable_w: cw }
                } else {
                    Bottleneck::Fine { negotiated_w: n as u32 }
                }
            },
            None => Bottleneck::ChargerLimit { charger_w: ch as u32 },
        }
    }
}

pub open spec fn spec_diag_summary(b: Bottleneck) -> Seq<char> {
    match b {
        Bottleneck::CableLimit { .. } => "Cable is limiting charging speed"@,
        Bottleneck::MacLimit { negotiated_w, charger_w, .. } => "Charging at "@ + dec(
            negotiated_w as nat,
        ) + "W (charger can do up to "@ + dec(charger_w as nat) + "W)"@,
        Bottleneck::Fine { negotiated_w } => "Charging well at "@ + dec(negotiated_w as nat)
            + "W"@,
        Bottleneck::ChargerLimit { charger_w } => "Charger advertises up to "@ + dec(
            charger_w as nat,
        ) + "W"@,
        Bottleneck::NoCharger => ""@,
    }
}

pub open spec fn spec_diag_detail(b: Bottleneck) -> Seq<char> {
    match b {
        Bottleneck::CableLimit { cable_w, charger_w } => "Charger can deliver up to "@ + dec(
            charger_w as nat,
        ) + "W, but this cable is only rated for "@ + dec(cable_w as nat)
            + "W. Replace the cable to charge faster."@,
        Bottleneck::MacLimit { .. } =>
            "Both the charger and cable can do more, but the system is currently asking for less. Normal once the battery is mostly full or the system is idle."@,
        Bottleneck::Fine { .. } => "Charger and cable are well-matched."@,
        Bottleneck::ChargerLimit { .. } => "Negotiation hasn't completed yet."@,
        Bottleneck::NoCharger => ""@,
    }
}

pub open spec fn spec_is_warning(b: Bottleneck) -> bool {
    match b {
        Bottleneck::CableLimit { .. } => true,
        Bottleneck::MacLimit { .. } => true,
        _ => false,
    }
}

fn max_u32(a: u32, b: u32) -> (res: u32)
    ensures
        res == max_nat(a as nat, b as nat),
{
    if a >= b {
        a
    } else {
        b
    }
}

fn cable_watts(ids: &[&PdIdentity], emarker: Option<usize>) -> (res: Option<u32>)
    requires
        emarker is None <==> first_with(derefs(ids@), PdEndpoint::SopPrime) < 0,
        emarker matches Some(c) ==> c == first_with(derefs(ids@), PdEndpoint::SopPrime) && c
            < ids@.len(),
    ensures
        res == diag_cable_w(derefs(ids@)),
{
    match emarker {
        Some(c) => match ids[c].cable_vdo {
            Some(cv) => Some(cv.max_watts),
            None => None,
        },
        None => None,
    }
}

/// Works out what limits charging on `port`: the cable, the system, or
/// nothing; `None` when no charger is attached or nothing is known.
pub fn diagnose(port: &UsbcPort, sources: &[&PowerSource], identities: &[&PdIdentity]) -> (res:
    Option<ChargingDiagnostic>)
    requires
        diagnose_in_range(*port, derefs(sources@)),
    ensures
        res is Some <==> diagnoses(*port, derefs(sources@)),
        res matches Some(d) ==> {
            let b = spec_bottleneck(derefs(sources@), derefs(identities@));
            &&& d.bottleneck == b
            &&& d.summary@ == spec_diag_summary(b)
            &&& d.detail@ == spec_diag_detail(b)
            &&& d.is_warning == spec_is_warning(b)
        },
{
    let ghost s = derefs(sources@);
    let chosen = match preferred_index(sources) {
        Some(i) => i,
        None => {
            return None;
        },
    };
    let source = sources[chosen];
    if !port.connected() {
        return None;
    }
    let neg = source.negotiated_mw();
    if source.max_power_mw == 0 && neg.is_none() {
        return None;
    }
    let neg_w: Option<u32> = match neg {
        Some(w) => Some((w + 500) / 1000),
        None => None,
    };
    let adv_w = (source.max_power_mw + 500) / 1000;
    let charger_w = max_u32(
        adv_w,
        match neg_w {
            Some(w) => w,
            None => 0,
        },
    );
    assert(charger_w == diag_charger_w(s[chosen as int]));
    let emarker = find_endpoint(identities, PdEndpoint::SopPrime);
    let cable_w = cable_watts(identities, emarker);

    if let Some(cw) = cable_w {
        if cw < charger_w {
            let mut detail = owned("Charger can deliver up to ");
            push_dec(&mut detail, charger_w as u64);
            push_str(&mut detail, "W, but this cable is only rated for ");
            push_dec(&mut detail, cw as u64);
            push_str(&mut detail, "W. Replace the cable to charge faster.");
            return Some(
                ChargingDiagnostic {
                    bottleneck: Bottleneck::CableLimit { cable_w: cw, charger_w },
                    summary: owned("Cable is limiting charging speed"),
                    detail,
                    is_warning: true,
                },
            );
        }
    }
    if let Some(n) = neg_w {
        let slack = max_u32(5, charger_w / 10);
        let cable_ok = match cable_w {
            Some(cw) => n + max_u32(5, cw / 10) < cw,
            None => true,
        };
        if charger_w > 0 && n + slack < charger_w && cable_ok {
            let mut summary = owned("Charging at ");
            push_dec(&mut summary, n as u64);
            push_str(&mut summary, "W (charger can do up to ");
            push_dec(&mut summary, charger_w as u64);
            push_str(&mut summary, "W)");
            return Some(
                ChargingDiagnostic {
                    bottleneck: Bottleneck::MacLimit { negotiated_w: n, charger_w, cable_w },
                    summary,
                    detail: owned(
                        "Both the charger and cable can do more, but the system is currently asking for less. Normal once the battery is mostly full or the system is idle.",
                    ),
                    is_warning: true,
                },
            );
        }
        let mut summary = owned("Charging well at ");
        push_dec(&mut summary, n as u64);
        push_str(&mut summary, "W");
        return Some(
            ChargingDiagnostic {
                bottleneck: Bottleneck::Fine { negotiated_w: n },
                summary,
                detail: owned("Charger and cable are well-matched."),
                is_warning: false,
            },
        );
    }
    let mut summary = owned("Charger advertises up to ");
    push_dec(&mut summary, charger_w as u64);
    push_str(&mut summary, "W");
    Some(
        ChargingDiagnostic {
            bottleneck: Bottleneck::ChargerLimit { charger_w },
            summary,
            detail: owned("Negotiation hasn't completed yet."),
            is_warning: false,
        },
    )
}

/// A diagnostic is a warning exactly when the cable or the system limits
/// charging; the negotiated figure never exceeds the charger's, a cable
/// limit names a cable rated below the charger, and a system limit leaves
/// more than the slack unused.
pub proof fn law_diagnostic_consistent(port: UsbcPort, s: Seq<PowerSource>, ids: Seq<PdIdentity>)
    requires
        diagnoses(port, s),
        diagnose_in_range(port, s),
    ensures
        ({
            let b = spec_bottleneck(s, ids);
            &&& spec_is_warning(b) <==> (b is CableLimit || b is MacLimit)
            &&& (b is NoCharger) == false
            &&& (b matches Bottleneck::CableLimit { cable_w, charger_w } ==> cable_w < charger_w)
            &&& (b matches Bottleneck::MacLimit { negotiated_w, charger_w, .. } ==> negotiated_w
                + 5 < charger_w)
            &&& (b matches Bottleneck::Fine { negotiated_w } ==> negotiated_w <= diag_charger_w(
                s[pref_index(s)],
            ))
        }),
{
    lemma_pref_index_range(s);
}

/// The last bullet of a connected port whose first partner (SOP) identity
/// has an ID Header names the kind of device: its UFP product type, or its
/// DFP product type when the UFP type is undefined, then its vendor.
pub proof fn law_partner_bullet_names_device_kind(
    port: UsbcPort,
    s: Seq<PowerSource>,
    ids: Seq<PdIdentity>,
    texts: Seq<PowerText>,
    k: int,
    h: IdHeader,
)
    requires
        port.spec_connected(),
        0 <= k < ids.len(),
        ids[k].endpoint == PdEndpoint::Sop,
        forall|j: int| 0 <= j < k ==> (#[trigger] ids[j]).endpoint != PdEndpoint::Sop,
        ids[k].id_header == Some(h),
    ensures
        spec_bullets(port, s, ids, texts).last() == "Connected device: "@ + (if h.ufp_product_type
            == ProductType::Undefined {
            h.dfp_product_type.spec_label()
        } else {
            h.ufp_product_type.spec_label()
        }) + " \u{2014} "@ + spec_label_for(ids[k].vendor_id),
{
    lemma_first_with(ids, PdEndpoint::Sop, k);
    let b = spec_bullets(port, s, ids, texts);
    let front = alt_bullets(port) + pd_bullets(port) + emarker_bullets(port, ids) + power_bullets(
        s,
        texts,
    ) + cable_bullets(port, ids);
    assert(b == front + partner_bullets(ids));
    assert(partner_bullets(ids).len() == 1);
}

/// When the first cable e-marker (SOP') identity is rated for fewer watts
/// than the charger delivers, the diagnostic names the cable, whether or not
/// a negotiated contract is known, and warns.
pub proof fn law_cable_below_charger_is_cable_limit(
    port: UsbcPort,
    s: Seq<PowerSource>,
    ids: Seq<PdIdentity>,
    c: int,
    cv: CableVdo,
)
    requires
        diagnoses(port, s),
        0 <= c < ids.len(),
        ids[c].endpoint == PdEndpoint::SopPrime,
        forall|j: int| 0 <= j < c ==> (#[trigger] ids[j]).endpoint != PdEndpoint::SopPrime,
        ids[c].cable_vdo == Some(cv),
        cv.max_watts < diag_charger_w(s[pref_index(s)]),
    ensures
        spec_bottleneck(s, ids) == (Bottleneck::CableLimit {
            cable_w: cv.max_watts,
            charger_w: diag_charger_w(s[pref_index(s)]) as u32,
        }),
        spec_is_warning(spec_bottleneck(s, ids)),
        spec_diag_summary(spec_bottleneck(s, ids)) == "Cable is limiting charging speed"@,
{
    lemma_first_with(ids, PdEndpoint::SopPrime, c);
}

} // verus!
