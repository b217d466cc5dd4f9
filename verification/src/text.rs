//! Human-readable report of a snapshot, with optional ANSI colors.
use vstd::prelude::*;
use crate::snapshot::{
    derefs, identities_with_key, sources_with_key, spec_speed_label, CableSnapshot, PdIdentity,
    PowerSource, ThunderboltDevice, UsbDevice, UsbcPort,
};
use crate::strings::{dec, hex_padded, join, owned, push_dec, push_hex_padded, push_str, views};
use crate::summary::{
    diagnose, diagnoses, diagnose_in_range, spec_bottleneck, spec_bullets, spec_diag_detail,
    spec_diag_summary, spec_headline, spec_is_warning, spec_status, spec_subtitle, summarize,
    summarize_in_range, texts_fit, port_in_range, PowerText, Status,
};

verus! {

pub open spec fn reset() -> Seq<char> {
    "\x1b[0m"@
}

pub open spec fn bold() -> Seq<char> {
    "\x1b[1m"@
}

pub open spec fn dim() -> Seq<char> {
    "\x1b[2m"@
}

pub open spec fn gray() -> Seq<char> {
    "\x1b[90m"@
}

pub open spec fn red() -> Seq<char> {
    "\x1b[31m"@
}

pub open spec fn green() -> Seq<char> {
    "\x1b[32m"@
}

pub open spec fn yellow() -> Seq<char> {
    "\x1b[33m"@
}

pub open spec fn blue() -> Seq<char> {
    "\x1b[34m"@
}

pub open spec fn magenta() -> Seq<char> {
    "\x1b[35m"@
}

pub open spec fn cyan() -> Seq<char> {
    "\x1b[36m"@
}

/// `body` in `style`, or plain when colors are off.
pub open spec fn wrap(style: Seq<char>, body: Seq<char>, color: bool) -> Seq<char> {
    if color {
        style + body + reset()
    } else {
        body
    }
}

pub open spec fn spec_status_color(s: Status) -> Seq<char> {
    match s {
        Status::Empty => gray(),
        Status::Charging => yellow(),
        Status::DataDevice => blue(),
        Status::ThunderboltCable => magenta(),
        Status::DisplayCable => cyan(),
        Status::Unknown => yellow(),
    }
}

/// The color a port's headline is shown in.
pub fn status_color(s: Status) -> (res: &'static str)
    ensures
        res@ == spec_status_color(s),
{
    match s {
        Status::Empty => "\x1b[90m",
        Status::Charging => "\x1b[33m",
        Status::DataDevice => "\x1b[34m",
        Status::ThunderboltCable => "\x1b[35m",
        Status::DisplayCable => "\x1b[36m",
        Status::Unknown => "\x1b[33m",
    }
}

/// Appends `body` in `style` (or plain) to `out`.
fn push_wrapped(out: &mut String, style: &str, body: &str, color: bool)
    ensures
        final(out)@ == old(out)@ + wrap(style@, body@, color),
{
    if color {
        push_str(out, style);
        push_str(out, body);
        push_str(out, "\x1b[0m");
    } else {
        push_str(out, body);
    }
}

/// Two styles in a row.
fn styles(a: &str, b: &str) -> (res: String)
    ensures
        res@ == a@ + b@,
{
    let mut s = owned(a);
    push_str(&mut s, b);
    s
}

// ---------------------------------------------------------------------------
// Devices
// ---------------------------------------------------------------------------

pub open spec fn id_hex(v: Option<u16>) -> Seq<char> {
    match v {
        Some(x) => hex_padded(x as nat, 4, false),
        None => "----"@,
    }
}

pub open spec fn usb_label(dev: UsbDevice) -> Seq<char> {
    match (dev.manufacturer, dev.product) {
        (Some(m), Some(p)) => m@ + " "@ + p@,
        (None, Some(p)) => p@,
        (Some(m), None) => m@,
        _ => id_hex(dev.vendor_id) + ":"@ + id_hex(dev.product_id),
    }
}

/// The line `format_usb_device` gives for an attached USB device.
pub open spec fn spec_usb_line(dev: UsbDevice, color: bool) -> Seq<char> {
    "  "@ + wrap(gray(), "\u{2022}"@, color) + " bus "@ + dec(dev.bus as nat) + " dev "@ + dec(
        dev.devnum as nat,
    ) + " ["@ + dev.path@ + "] "@ + wrap(
        dim(),
        id_hex(dev.vendor_id) + ":"@ + id_hex(dev.product_id) + " \u{b7} "@ + spec_speed_label(
            dev.speed_mbps,
        ),
        color,
    ) + " \u{2014} "@ + usb_label(dev) + "\n"@
}

fn push_id_hex(s: &mut String, v: Option<u16>)
    ensures
        final(s)@ == old(s)@ + id_hex(v),
{
    match v {
        Some(x) => push_hex_padded(s, x as u64, 4, false),
        None => push_str(s, "----"),
    }
}

/// One line describing an attached USB device.
pub fn format_usb_device(dev: &UsbDevice, color: bool) -> (res: String)
    ensures
        res@ == spec_usb_line(*dev, color),
{
    let mut ids = String::new();
    push_id_hex(&mut ids, dev.vendor_id);
    push_str(&mut ids, ":");
    push_id_hex(&mut ids, dev.product_id);
    let mut label = String::new();
    match (&dev.manufacturer, &dev.product) {
        (Some(m), Some(p)) => {
            push_str(&mut label, m.as_str());
            push_str(&mut label, " ");
            push_str(&mut label, p.as_str());
        },
        (None, Some(p)) => push_str(&mut label, p.as_str()),
        (Some(m), None) => push_str(&mut label, m.as_str()),
        _ => push_str(&mut label, ids.as_str()),
    }
    assert(label@ =~= usb_label(*dev));
    let mut mid = owned(ids.as_str());
    push_str(&mut mid, " \u{b7} ");
    let speed = dev.speed_label();
    push_str(&mut mid, speed.as_str());
    let mut out = owned("  ");
    push_wrapped(&mut out, "\x1b[90m", "\u{2022}", color);
    push_str(&mut out, " bus ");
    push_dec(&mut out, dev.bus as u64);
    push_str(&mut out, " dev ");
    push_dec(&mut out, dev.devnum as u64);
    push_str(&mut out, " [");
    push_str(&mut out, dev.path.as_str());
    push_str(&mut out, "] ");
    push_wrapped(&mut out, "\x1b[2m", mid.as_str(), color);
    push_str(&mut out, " \u{2014} ");
    push_str(&mut out, label.as_str());
    push_str(&mut out, "\n");
    out
}

pub open spec fn tb_label(dev: ThunderboltDevice) -> Seq<char> {
    match (dev.vendor_name, dev.device_name) {
        (Some(v), Some(d)) => v@ + " "@ + d@,
        (None, Some(d)) => d@,
        (Some(v), None) => v@,
        _ => dev.path@,
    }
}

pub open spec fn tb_auth(a: Option<bool>, color: bool) -> Seq<char> {
    match a {
        Some(true) => wrap(green(), "authorized"@, color),
        Some(false) => wrap(red(), "unauthorized"@, color),
        None => wrap(gray(), "\u{2014}"@, color),
    }
}

/// The line `format_tb_device` gives for a Thunderbolt device.
pub open spec fn spec_tb_line(dev: ThunderboltDevice, color: bool) -> Seq<char> {
    "  "@ + wrap(gray(), "\u{2022}"@, color) + " "@ + tb_label(dev) + " ["@ + dev.path@ + "] "@
        + tb_auth(dev.authorized, color) + "\n"@
}

/// One line describing a Thunderbolt device.
pub fn format_tb_device(dev: &ThunderboltDevice, color: bool) -> (res: String)
    ensures
        res@ == spec_tb_line(*dev, color),
{
    let mut out = owned("  ");
    push_wrapped(&mut out, "\x1b[90m", "\u{2022}", color);
    push_str(&mut out, " ");
    match (&dev.vendor_name, &dev.device_name) {
        (Some(v), Some(d)) => {
            push_str(&mut out, v.as_str());
            push_str(&mut out, " ");
            push_str(&mut out, d.as_str());
        },
        (None, Some(d)) => push_str(&mut out, d.as_str()),
        (Some(v), None) => push_str(&mut out, v.as_str()),
        _ => push_str(&mut out, dev.path.as_str()),
    }
    push_str(&mut out, " [");
    push_str(&mut out, dev.path.as_str());
    push_str(&mut out, "] ");
    match dev.authorized {
        Some(true) => push_wrapped(&mut out, "\x1b[32m", "authorized", color),
        Some(false) => push_wrapped(&mut out, "\x1b[31m", "unauthorized", color),
        None => push_wrapped(&mut out, "\x1b[90m", "\u{2014}", color),
    }
    push_str(&mut out, "\n");
    out
}

// ---------------------------------------------------------------------------
// Ports
// ---------------------------------------------------------------------------

/// The texts of the sources whose port key is `key`, in order.
pub open spec fn texts_with_key(
    s: Seq<PowerSource>,
    t: Seq<PowerText>,
    key: Seq<char>,
) -> Seq<PowerText>
    decreases s.len(),
{
    if s.len() == 0 {
        seq![]
    } else if s.last().port_key@ == key {
        texts_with_key(s.drop_last(), t, key).push(t[s.len() - 1])
    } else {
        texts_with_key(s.drop_last(), t, key)
    }
}

/// Every port's summary and diagnostic stay within `u32`.
pub open spec fn render_in_range(snap: CableSnapshot) -> bool {
    forall|i: int|
        0 <= i < snap.ports@.len() ==> {
            let p = #[trigger] snap.ports@[i];
            let srcs = sources_with_key(snap.power_sources@, p.port_key@);
            &&& summarize_in_range(srcs)
            &&& diagnose_in_range(p, srcs)
        }
}

/// Whether `render` can work on `snap` without overflowing
/// (`render_in_range`).
pub fn render_fits(snap: &CableSnapshot) -> (res: bool)
    ensures
        res == render_in_range(*snap),
{
    let mut i: usize = 0;
    while i < snap.ports.len()
        invariant
            i <= snap.ports@.len(),
            forall|j: int|
                0 <= j < i ==> {
                    let p = #[trigger] snap.ports@[j];
                    let srcs = sources_with_key(snap.power_sources@, p.port_key@);
                    &&& summarize_in_range(srcs)
                    &&& diagnose_in_range(p, srcs)
                },
        decreases snap.ports.len() - i,
    {
        let port = &snap.ports[i];
        let sources = snap.sources_for(port);
        if !port_in_range(port, sources.as_slice()) {
            return false;
        }
        i = i + 1;
    }
    true
}

pub open spec fn bullet_lines(bullets: Seq<Seq<char>>, color: bool) -> Seq<char>
    decreases bullets.len(),
{
    if bullets.len() == 0 {
        seq![]
    } else {
        bullet_lines(bullets.drop_last(), color) + "  "@ + wrap(gray(), "\u{2022}"@, color) + " "@
            + bullets.last() + "\n"@
    }
}

pub open spec fn attr_lines(attrs: Seq<(String, String)>, color: bool) -> Seq<char>
    decreases attrs.len(),
{
    if attrs.len() == 0 {
        seq![]
    } else {
        attr_lines(attrs.drop_last(), color) + "  "@ + wrap(gray(), attrs.last().0@, color)
            + " = "@ + attrs.last().1@ + "\n"@
    }
}

pub open spec fn identity_lines(ids: Seq<PdIdentity>, color: bool) -> Seq<char>
    decreases ids.len(),
{
    if ids.len() == 0 {
        seq![]
    } else {
        identity_lines(ids.drop_last(), color) + "  "@ + wrap(
            gray(),
            "identity["@ + ids.last().endpoint.spec_as_str() + "]"@,
            color,
        ) + " "@ + join(views(ids.last().vdos_hex@), " "@) + "\n"@
    }
}

/// The raw identity lines of a list are those of its first part followed by
/// the line of the next identity.
pub proof fn law_identity_lines_append(ids: Seq<PdIdentity>, id: PdIdentity, color: bool)
    ensures
        identity_lines(ids.push(id), color) == identity_lines(ids, color) + identity_lines(
            seq![id],
            color,
        ),
{
    assert(ids.push(id).drop_last() =~= ids);
    assert(seq![id].drop_last() =~= Seq::<PdIdentity>::empty());
    assert(identity_lines(Seq::<PdIdentity>::empty(), color) =~= Seq::<char>::empty());
    assert(identity_lines(ids.push(id), color) =~= identity_lines(ids, color) + identity_lines(
        seq![id],
        color,
    ));
}

/// The raw line of an identity is tagged with its own endpoint:
/// `identity[SOP]` for a partner, `identity[SOP']` for a cable e-marker,
/// gray when colors are on.
pub proof fn law_identity_line_tag(id: PdIdentity, color: bool)
    ensures
        ({
            let tag = "identity["@ + id.endpoint.spec_as_str() + "]"@;
            let head = if color {
                "  "@ + gray() + tag
            } else {
                "  "@ + tag
            };
            identity_lines(seq![id], color).take(head.len() as int) == head
        }),
{
    assert(seq![id].drop_last() =~= Seq::<PdIdentity>::empty());
    assert(identity_lines(Seq::<PdIdentity>::empty(), color) =~= Seq::<char>::empty());
    let tag = "identity["@ + id.endpoint.spec_as_str() + "]"@;
    let head = if color {
        "  "@ + gray() + tag
    } else {
        "  "@ + tag
    };
    assert(identity_lines(seq![id], color).take(head.len() as int) =~= head);
}

pub open spec fn source_line(src: PowerSource, color: bool) -> Seq<char> {
    "  "@ + wrap(gray(), "power_source["@ + src.name@ + "]"@, color) + " max_power_mW="@ + dec(
        src.max_power_mw as nat,
    ) + " options="@ + dec(src.options@.len()) + "\n"@
}

pub open spec fn source_lines(srcs: Seq<PowerSource>, color: bool) -> Seq<char>
    decreases srcs.len(),
{
    if srcs.len() == 0 {
        seq![]
    } else {
        source_lines(srcs.drop_last(), color) + source_line(srcs.last(), color)
    }
}

pub open spec fn block_head(
    port: UsbcPort,
    status: Status,
    headline: Seq<char>,
    subtitle: Seq<char>,
    color: bool,
) -> Seq<char> {
    wrap(bold() + cyan(), "=== "@ + port.name@ + " ==="@, color) + "\n"@ + wrap(
        bold() + spec_status_color(status),
        headline,
        color,
    ) + "\n"@ + wrap(dim(), subtitle, color) + "\n"@
}

pub open spec fn block_role(port: UsbcPort, color: bool) -> Seq<char> {
    match (port.data_role, port.power_role) {
        (Some(d), Some(p)) => wrap(gray(), "  role: "@ + d@ + " / "@ + p@, color) + "\n"@,
        _ => seq![],
    }
}

pub open spec fn block_bullets(bullets: Seq<Seq<char>>, color: bool) -> Seq<char> {
    if bullets.len() > 0 {
        "\n"@ + bullet_lines(bullets, color)
    } else {
        seq![]
    }
}

pub open spec fn block_diag(port: UsbcPort, srcs: Seq<PowerSource>, ids: Seq<PdIdentity>, color: bool) -> Seq<char> {
    if diagnoses(port, srcs) {
        let b = spec_bottleneck(srcs, ids);
        "\n"@ + wrap(bold(), "Charging: "@, color) + wrap(
            if spec_is_warning(b) {
                yellow()
            } else {
                green()
            },
            spec_diag_summary(b),
            color,
        ) + "\n"@ + "  "@ + wrap(dim(), spec_diag_detail(b), color) + "\n"@
    } else {
        seq![]
    }
}

pub open spec fn block_raw(
    port: UsbcPort,
    srcs: Seq<PowerSource>,
    ids: Seq<PdIdentity>,
    show_raw: bool,
    color: bool,
) -> Seq<char> {
    if show_raw {
        "\n"@ + wrap(bold(), "Raw sysfs attributes:"@, color) + "\n"@ + attr_lines(
            port.raw_attrs@,
            color,
        ) + identity_lines(ids, color) + source_lines(srcs, color)
    } else {
        seq![]
    }
}

/// The report of one port.
#[verifier::opaque]
pub open spec fn spec_port_block(
    port: UsbcPort,
    srcs: Seq<PowerSource>,
    ids: Seq<PdIdentity>,
    texts: Seq<PowerText>,
    show_raw: bool,
    color: bool,
) -> Seq<char> {
    block_head(
        port,
        spec_status(port, srcs, ids),
        spec_headline(port, srcs, ids),
        spec_subtitle(port, srcs, ids),
        color,
    ) + block_role(port, color) + block_bullets(spec_bullets(port, srcs, ids, texts), color)
        + block_diag(port, srcs, ids, color) + block_raw(port, srcs, ids, show_raw, color)
}

pub open spec fn port_block_of(
    snap: CableSnapshot,
    texts: Seq<PowerText>,
    i: int,
    show_raw: bool,
    color: bool,
) -> Seq<char> {
    let p = snap.ports@[i];
    spec_port_block(
        p,
        sources_with_key(snap.power_sources@, p.port_key@),
        identities_with_key(snap.identities@, p.port_key@),
        texts_with_key(snap.power_sources@, texts, p.port_key@),
        show_raw,
        color,
    )
}

/// The reports of the first `n` ports, separated by blank lines.
pub open spec fn ports_text(
    snap: CableSnapshot,
    texts: Seq<PowerText>,
    n: int,
    show_raw: bool,
    color: bool,
) -> Seq<char>
    decreases n,
{
    if n <= 0 {
        seq![]
    } else {
        ports_text(snap, texts, n - 1, show_raw, color) + (if n > 1 {
            "\n"@
        } else {
            seq![]
        }) + port_block_of(snap, texts, n - 1, show_raw, color)
    }
}

pub open spec fn usb_lines(devs: Seq<UsbDevice>, color: bool) -> Seq<char>
    decreases devs.len(),
{
    if devs.len() == 0 {
        seq![]
    } else {
        usb_lines(devs.drop_last(), color) + spec_usb_line(devs.last(), color)
    }
}

pub open spec fn tb_lines(devs: Seq<ThunderboltDevice>, color: bool) -> Seq<char>
    decreases devs.len(),
{
    if devs.len() == 0 {
        seq![]
    } else {
        tb_lines(devs.drop_last(), color) + spec_tb_line(devs.last(), color)
    }
}

pub open spec fn no_ports_text() -> Seq<char> {
    "No USB-C / Type-C ports were found on this system.\n(No /sys/class/typec entries \u{2014} kernel typec class may not be populated.)\n"@
}

/// The list of attached USB devices, when there are any.
pub open spec fn usb_section(devs: Seq<UsbDevice>, color: bool) -> Seq<char> {
    if devs.len() > 0 {
        "\n"@ + wrap(bold() + cyan(), "=== Attached USB devices ==="@, color) + "\n"@ + usb_lines(
            devs,
            color,
        )
    } else {
        seq![]
    }
}

/// The list of Thunderbolt devices, when there are any.
pub open spec fn tb_section(devs: Seq<ThunderboltDevice>, color: bool) -> Seq<char> {
    if devs.len() > 0 {
        "\n"@ + wrap(bold() + cyan(), "=== Thunderbolt devices ==="@, color) + "\n"@ + tb_lines(
            devs,
            color,
        )
    } else {
        seq![]
    }
}

/// The whole report.
pub open spec fn spec_render(
    snap: CableSnapshot,
    texts: Seq<PowerText>,
    show_raw: bool,
    color: bool,
) -> Seq<char> {
    if snap.ports@.len() == 0 {
        no_ports_text()
    } else {
        ports_text(snap, texts, snap.ports@.len() as int, show_raw, color) + usb_section(
            snap.usb_devices@,
            color,
        ) + tb_section(snap.thunderbolt_devices@, color)
    }
}

/// `t` covers the first `s.len()` sources.
pub open spec fn texts_cover(s: Seq<PowerSource>, t: Seq<PowerText>) -> bool {
    &&& t.len() >= s.len()
    &&& forall|i: int| 0 <= i < s.len() ==> crate::summary::text_fits(#[trigger] s[i], t[i])
}

pub(crate) proof fn lemma_texts_with_key(s: Seq<PowerSource>, t: Seq<PowerText>, key: Seq<char>)
    requires
        texts_cover(s, t),
    ensures
        texts_fit(sources_with_key(s, key), texts_with_key(s, t, key)),
    decreases s.len(),
{
    if s.len() > 0 {
        let d = s.drop_last();
        assert(texts_cover(d, t)) by {
            assert forall|i: int| 0 <= i < d.len() implies crate::summary::text_fits(
                #[trigger] d[i],
                t[i],
            ) by {
                assert(d[i] == s[i]);
            }
        }
        lemma_texts_with_key(d, t, key);
        if s.last().port_key@ == key {
            let a = sources_with_key(s, key);
            let b = texts_with_key(s, t, key);
            assert(crate::summary::text_fits(s[s.len() - 1], t[s.len() - 1]));
            assert forall|i: int| 0 <= i < a.len() implies crate::summary::text_fits(
                #[trigger] a[i],
                b[i],
            ) by {
                if i < a.len() - 1 {
                    assert(a[i] == sources_with_key(d, key)[i]);
                    assert(b[i] == texts_with_key(d, t, key)[i]);
                }
            }
        }
    }
}

pub(crate) fn texts_for<'a>(snap: &CableSnapshot, texts: &'a Vec<PowerText>, port: &UsbcPort) -> (res: Vec<
    &'a PowerText,
>)
    requires
        texts@.len() == snap.power_sources@.len(),
    ensures
        derefs(res@) == texts_with_key(snap.power_sources@, texts@, port.port_key@),
{
    let mut out: Vec<&'a PowerText> = Vec::new();
    let mut i: usize = 0;
    while i < snap.power_sources.len()
        invariant
            i <= snap.power_sources@.len(),
            texts@.len() == snap.power_sources@.len(),
            derefs(out@) == texts_with_key(
                snap.power_sources@.take(i as int),
                texts@,
                port.port_key@,
            ),
        decreases snap.power_sources.len() - i,
    {
        assert(snap.power_sources@.take(i + 1).drop_last() =~= snap.power_sources@.take(i as int));
        if snap.power_sources[i].port_key == port.port_key {
            out.push(&texts[i]);
        }
        i = i + 1;
        assert(derefs(out@) =~= texts_with_key(
            snap.power_sources@.take(i as int),
            texts@,
            port.port_key@,
        ));
    }
    assert(snap.power_sources@.take(i as int) =~= snap.power_sources@);
    out
}

fn push_bullet_lines(out: &mut String, bullets: &Vec<String>, color: bool)
    ensures
        final(out)@ == old(out)@ + bullet_lines(views(bullets@), color),
{
    let ghost start = out@;
    let ghost vs = views(bullets@);
    let mut i: usize = 0;
    while i < bullets.len()
        invariant
            i <= bullets@.len(),
            vs == views(bullets@),
            out@ == start + bullet_lines(vs.take(i as int), color),
        decreases bullets.len() - i,
    {
        assert(vs.take(i + 1).drop_last() =~= vs.take(i as int));
        push_str(out, "  ");
        push_wrapped(out, "\x1b[90m", "\u{2022}", color);
        push_str(out, " ");
        push_str(out, bullets[i].as_str());
        push_str(out, "\n");
        i = i + 1;
        assert(out@ =~= start + bullet_lines(vs.take(i as int), color));
    }
    assert(vs.take(i as int) =~= vs);
}

fn push_attr_lines(out: &mut String, attrs: &Vec<(String, String)>, color: bool)
    ensures
        final(out)@ == old(out)@ + attr_lines(attrs@, color),
{
    let ghost start = out@;
    let mut i: usize = 0;
    while i < attrs.len()
        invariant
            i <= attrs@.len(),
            out@ == start + attr_lines(attrs@.take(i as int), color),
        decreases attrs.len() - i,
    {
        assert(attrs@.take(i + 1).drop_last() =~= attrs@.take(i as int));
        push_str(out, "  ");
        push_wrapped(out, "\x1b[90m", attrs[i].0.as_str(), color);
        push_str(out, " = ");
        push_str(out, attrs[i].1.as_str());
        push_str(out, "\n");
        i = i + 1;
        assert(out@ =~= start + attr_lines(attrs@.take(i as int), color));
    }
    assert(attrs@.take(i as int) =~= attrs@);
}

fn push_identity_lines(out: &mut String, ids: &Vec<&PdIdentity>, color: bool)
    ensures
        final(out)@ == old(out)@ + identity_lines(derefs(ids@), color),
{
    let ghost start = out@;
    let ghost s = derefs(ids@);
    let mut i: usize = 0;
    while i < ids.len()
        invariant
            i <= ids@.len(),
            s == derefs(ids@),
            out@ == start + identity_lines(s.take(i as int), color),
        decreases ids.len() - i,
    {
        assert(s.take(i + 1).drop_last() =~= s.take(i as int));
        let id = ids[i];
        let mut tag = owned("identity[");
        push_str(&mut tag, id.endpoint.as_str());
        push_str(&mut tag, "]");
        push_str(out, "  ");
        push_wrapped(out, "\x1b[90m", tag.as_str(), color);
        push_str(out, " ");
        let joined = crate::strings::join_strings(&id.vdos_hex, " ");
        push_str(out, joined.as_str());
        push_str(out, "\n");
        i = i + 1;
        assert(out@ =~= start + identity_lines(s.take(i as int), color));
    }
    assert(s.take(i as int) =~= s);
}

fn push_source_line(out: &mut String, src: &PowerSource, color: bool)
    ensures
        final(out)@ == old(out)@ + source_line(*src, color),
{
    let ghost start = out@;
    let mut tag = owned("power_source[");
    push_str(&mut tag, src.name.as_str());
    push_str(&mut tag, "]");
    push_str(out, "  ");
    push_wrapped(out, "\x1b[90m", tag.as_str(), color);
    push_str(out, " max_power_mW=");
    push_dec(out, src.max_power_mw as u64);
    push_str(out, " options=");
    push_dec(out, src.options.len() as u64);
    push_str(out, "\n");
    assert(out@ =~= start + source_line(*src, color));
}

fn push_source_lines(out: &mut String, srcs: &Vec<&PowerSource>, color: bool)
    ensures
        final(out)@ == old(out)@ + source_lines(derefs(srcs@), color),
{
    let ghost start = out@;
    let ghost s = derefs(srcs@);
    let mut i: usize = 0;
    while i < srcs.len()
        invariant
            i <= srcs@.len(),
            s == derefs(srcs@),
            out@ == start + source_lines(s.take(i as int), color),
        decreases srcs.len() - i,
    {
        assert(s.take(i + 1).drop_last() =~= s.take(i as int));
        push_source_line(out, srcs[i], color);
        i = i + 1;
        assert(out@ =~= start + source_lines(s.take(i as int), color));
    }
    assert(s.take(i as int) =~= s);
}

fn push_head(out: &mut String, port: &UsbcPort, status: Status, headline: &String, subtitle: &String, color: bool)
    ensures
        final(out)@ == old(out)@ + block_head(*port, status, headline@, subtitle@, color),
{
    let ghost start = out@;
    let mut header = owned("=== ");
    push_str(&mut header, port.name.as_str());
    push_str(&mut header, " ===");
    let s1 = styles("\x1b[1m", "\x1b[36m");
    push_wrapped(out, s1.as_str(), header.as_str(), color);
    push_str(out, "\n");
    let s2 = styles("\x1b[1m", status_color(status));
    push_wrapped(out, s2.as_str(), headline.as_str(), color);
    push_str(out, "\n");
    push_wrapped(out, "\x1b[2m", subtitle.as_str(), color);
    push_str(out, "\n");
    assert(out@ =~= start + block_head(*port, status, headline@, subtitle@, color));
}

fn push_role(out: &mut String, port: &UsbcPort, color: bool)
    ensures
        final(out)@ == old(out)@ + block_role(*port, color),
{
    let ghost start = out@;
    match (&port.data_role, &port.power_role) {
        (Some(d), Some(p)) => {
            let mut role = owned("  role: ");
            push_str(&mut role, d.as_str());
            push_str(&mut role, " / ");
            push_str(&mut role, p.as_str());
            push_wrapped(out, "\x1b[90m", role.as_str(), color);
            push_str(out, "\n");
        },
        _ => {},
    }
    assert(out@ =~= start + block_role(*port, color));
}

fn push_diag(out: &mut String, port: &UsbcPort, sources: &Vec<&PowerSource>, identities: &Vec<&PdIdentity>, color: bool)
    requires
        diagnose_in_range(*port, derefs(sources@)),
    ensures
        final(out)@ == old(out)@ + block_diag(*port, derefs(sources@), derefs(identities@), color),
{
    let ghost start = out@;
    match diagnose(port, sources.as_slice(), identities.as_slice()) {
        Some(diag) => {
            let c = if diag.is_warning {
                "\x1b[33m"
            } else {
                "\x1b[32m"
            };
            push_str(out, "\n");
            push_wrapped(out, "\x1b[1m", "Charging: ", color);
            push_wrapped(out, c, diag.summary.as_str(), color);
            push_str(out, "\n");
            push_str(out, "  ");
            push_wrapped(out, "\x1b[2m", diag.detail.as_str(), color);
            push_str(out, "\n");
        },
        None => {},
    }
    assert(out@ =~= start + block_diag(*port, derefs(sources@), derefs(identities@), color));
}

fn push_raw(out: &mut String, port: &UsbcPort, sources: &Vec<&PowerSource>, identities: &Vec<&PdIdentity>, show_raw: bool, color: bool)
    ensures
        final(out)@ == old(out)@ + block_raw(*port, derefs(sources@), derefs(identities@), show_raw, color),
{
    let ghost start = out@;
    if show_raw {
        push_str(out, "\n");
        push_wrapped(out, "\x1b[1m", "Raw sysfs attributes:", color);
        push_str(out, "\n");
        push_attr_lines(out, &port.raw_attrs, color);
        push_identity_lines(out, identities, color);
        push_source_lines(out, sources, color);
        assert(out@ =~= start + block_raw(*port, derefs(sources@), derefs(identities@), show_raw, color));
    } else {
        assert(out@ =~= start + block_raw(*port, derefs(sources@), derefs(identities@), show_raw, color));
    }
}

proof fn lemma_concat5(s: Seq<char>, a: Seq<char>, b: Seq<char>, c: Seq<char>, d: Seq<char>, e: Seq<char>)
    ensures
        s + a + b + c + d + e == s + (a + b + c + d + e),
{
    assert(s + a + b + c + d + e =~= s + (a + b + c + d + e));
}

fn push_port_block(
    out: &mut String,
    snap: &CableSnapshot,
    texts: &Vec<PowerText>,
    i: usize,
    show_raw: bool,
    color: bool,
)
    requires
        i < snap.ports@.len(),
        texts_fit(snap.power_sources@, texts@),
        render_in_range(*snap),
    ensures
        final(out)@ == old(out)@ + port_block_of(*snap, texts@, i as int, show_raw, color),
{
    let port = &snap.ports[i];
    let sources = snap.sources_for(port);
    let identities = snap.identities_for(port);
    let ts = texts_for(snap, texts, port);
    proof {
        lemma_texts_with_key(snap.power_sources@, texts@, port.port_key@);
        let p = snap.ports@[i as int];
        assert(summarize_in_range(sources_with_key(snap.power_sources@, p.port_key@)));
    }
    let ghost srcs = derefs(sources@);
    let ghost ids = derefs(identities@);
    let ghost tss = derefs(ts@);
    let summary = summarize(port, sources.as_slice(), identities.as_slice(), ts.as_slice());
    let ghost start = out@;
    push_head(out, port, summary.status, &summary.headline, &summary.subtitle, color);
    push_role(out, port, color);
    let ghost r = out@;
    if summary.bullets.len() != 0 {
        push_str(out, "\n");
        push_bullet_lines(out, &summary.bullets, color);
    }
    assert(out@ == r + block_bullets(views(summary.bullets@), color)) by {
        if summary.bullets.len() != 0 {
            assert(out@ =~= r + block_bullets(views(summary.bullets@), color));
        } else {
            assert(out@ =~= r + block_bullets(views(summary.bullets@), color));
        }
    }
    push_diag(out, port, &sources, &identities, color);
    push_raw(out, port, &sources, &identities, show_raw, color);
    proof {
        let ghost ba = block_head(*port, summary.status, summary.headline@, summary.subtitle@, color);
        let ghost bb = block_role(*port, color);
        let ghost bc = block_bullets(views(summary.bullets@), color);
        let ghost bd = block_diag(*port, srcs, ids, color);
        let ghost be = block_raw(*port, srcs, ids, show_raw, color);
        lemma_concat5(start, ba, bb, bc, bd, be);
        assert(ba + bb + bc + bd + be == spec_port_block(*port, srcs, ids, tss, show_raw, color)) by {
            reveal(spec_port_block);
        }
    }
}

fn push_ports(out: &mut String, snap: &CableSnapshot, texts: &Vec<PowerText>, show_raw: bool, color: bool)
    requires
        texts_fit(snap.power_sources@, texts@),
        render_in_range(*snap),
    ensures
        final(out)@ == old(out)@ + ports_text(*snap, texts@, snap.ports@.len() as int, show_raw, color),
{
    let ghost start = out@;
    let mut i: usize = 0;
    assert(out@ =~= start + ports_text(*snap, texts@, 0, show_raw, color));
    while i < snap.ports.len()
        invariant
            i <= snap.ports@.len(),
            texts_fit(snap.power_sources@, texts@),
            render_in_range(*snap),
            out@ == start + ports_text(*snap, texts@, i as int, show_raw, color),
        decreases snap.ports.len() - i,
    {
        let ghost before = out@;
        if i > 0 {
            push_str(out, "\n");
        }
        let ghost mid = out@;
        push_port_block(out, snap, texts, i, show_raw, color);
        proof {
            let ghost sep: Seq<char> = if i > 0 { "\n"@ } else { seq![] };
            let ghost blk = port_block_of(*snap, texts@, i as int, show_raw, color);
            assert(mid == before + sep);
            assert(ports_text(*snap, texts@, i + 1, show_raw, color) == ports_text(
                *snap,
                texts@,
                i as int,
                show_raw,
                color,
            ) + sep + blk);
            assert(out@ =~= start + ports_text(*snap, texts@, i + 1, show_raw, color));
        }
        i = i + 1;
    }
}

fn push_usb_section(out: &mut String, devs: &Vec<UsbDevice>, color: bool)
    ensures
        final(out)@ == old(out)@ + usb_section(devs@, color),
{
    let ghost start = out@;
    if devs.len() == 0 {
        assert(out@ =~= start + usb_section(devs@, color));
        return;
    }
    push_str(out, "\n");
    let st = styles("\x1b[1m", "\x1b[36m");
    push_wrapped(out, st.as_str(), "=== Attached USB devices ===", color);
    push_str(out, "\n");
    let ghost base = out@;
    let mut k: usize = 0;
    while k < devs.len()
        invariant
            k <= devs@.len(),
            out@ == base + usb_lines(devs@.take(k as int), color),
        decreases devs.len() - k,
    {
        assert(devs@.take(k + 1).drop_last() =~= devs@.take(k as int));
        let line = format_usb_device(&devs[k], color);
        push_str(out, line.as_str());
        k = k + 1;
        assert(out@ =~= base + usb_lines(devs@.take(k as int), color));
    }
    assert(devs@.take(k as int) =~= devs@);
    assert(out@ =~= start + usb_section(devs@, color));
}

fn push_tb_section(out: &mut String, devs: &Vec<ThunderboltDevice>, color: bool)
    ensures
        final(out)@ == old(out)@ + tb_section(devs@, color),
{
    let ghost start = out@;
    if devs.len() == 0 {
        assert(out@ =~= start + tb_section(devs@, color));
        return;
    }
    push_str(out, "\n");
    let st = styles("\x1b[1m", "\x1b[36m");
    push_wrapped(out, st.as_str(), "=== Thunderbolt devices ===", color);
    push_str(out, "\n");
    let ghost base = out@;
    let mut k: usize = 0;
    while k < devs.len()
        invariant
            k <= devs@.len(),
            out@ == base + tb_lines(devs@.take(k as int), color),
        decreases devs.len() - k,
    {
        assert(devs@.take(k + 1).drop_last() =~= devs@.take(k as int));
        let line = format_tb_device(&devs[k], color);
        push_str(out, line.as_str());
        k = k + 1;
        assert(out@ =~= base + tb_lines(devs@.take(k as int), color));
    }
    assert(devs@.take(k as int) =~= devs@);
    assert(out@ =~= start + tb_section(devs@, color));
}

/// The human-readable report. `texts` holds, for each power source of the
/// snapshot, its figures as text; `color` selects ANSI styling.
pub fn render(snap: &CableSnapshot, texts: &Vec<PowerText>, show_raw: bool, color: bool) -> (res:
    String)
    requires
        texts_fit(snap.power_sources@, texts@),
        render_in_range(*snap),
    ensures
        res@ == spec_render(*snap, texts@, show_raw, color),
{
    if snap.ports.len() == 0 {
        return owned(
            "No USB-C / Type-C ports were found on this system.\n(No /sys/class/typec entries \u{2014} kernel typec class may not be populated.)\n",
        );
    }
    let mut out = String::new();
    push_ports(&mut out, snap, texts, show_raw, color);
    let ghost pt = ports_text(*snap, texts@, snap.ports@.len() as int, show_raw, color);
    let ghost a = out@;
    push_usb_section(&mut out, &snap.usb_devices, color);
    push_tb_section(&mut out, &snap.thunderbolt_devices, color);
    proof {
        let ghost u = usb_section(snap.usb_devices@, color);
        let ghost t = tb_section(snap.thunderbolt_devices@, color);
        assert(a =~= pt);
        assert(out@ =~= pt + u + t);
    }
    out
}

} // verus!
