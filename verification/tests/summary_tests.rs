use whatcable::pdvdo::{CableVdo, IdHeader};
use whatcable::snapshot::{
    AltMode, PdEndpoint, PdIdentity, PowerOption, PowerOptionKind, PowerSource, UsbDevice,
    UsbcPort,
};
use whatcable::summary::{
    diagnose, port_in_range, preferred_charging_source, summarize, texts_match, Bottleneck,
    PowerText, Status,
};

fn port(name: &str) -> UsbcPort {
    UsbcPort {
        port_key: name.to_string(),
        name: name.to_string(),
        data_role: None,
        power_role: None,
        power_operation_mode: None,
        typec_revision: None,
        pd_revision: None,
        partner_present: false,
        partner_supports_pd: None,
        partner_pd_revision: None,
        cable_present: false,
        cable_type: None,
        alt_modes: vec![],
        raw_attrs: vec![],
    }
}

fn source(key: &str, options: Vec<PowerOption>, mv: Option<u32>, ma: Option<u32>) -> PowerSource {
    let max = options.iter().map(|o| o.max_power_mw).max().unwrap_or(0);
    PowerSource {
        port_key: key.to_string(),
        name: "pd0".to_string(),
        max_power_mw: max,
        options,
        winning: None,
        negotiated_mv: mv,
        negotiated_ma: ma,
        usb_type: None,
    }
}

fn text_for(s: &PowerSource, pdos: &[&str], negotiated: Option<&str>) -> PowerText {
    assert_eq!(pdos.len(), s.options.len());
    PowerText {
        pdos: pdos.iter().map(|p| p.to_string()).collect(),
        negotiated: negotiated.map(|n| n.to_string()),
    }
}

fn identity(key: &str, endpoint: PdEndpoint, vendor_id: u16) -> PdIdentity {
    PdIdentity {
        port_key: key.to_string(),
        endpoint,
        vendor_id,
        product_id: 0,
        id_header: None,
        product_vdo: None,
        cable_vdo: None,
        vdos_hex: vec![],
    }
}

#[test]
fn power_option_fixed_power() {
    let o = PowerOption::fixed(9000, 2220);
    assert_eq!(o.max_power_mw, 19980);
    assert_eq!(o.kind, PowerOptionKind::Fixed);
    let big = PowerOption::fixed(u32::MAX, u32::MAX);
    assert_eq!(big.max_power_mw, ((u32::MAX as u64 * u32::MAX as u64) / 1000) as u32);
}

#[test]
fn labels_and_names() {
    assert_eq!(PowerOptionKind::Fixed.label(), "fixed");
    assert_eq!(PowerOptionKind::Variable.label(), "variable");
    assert_eq!(PowerOptionKind::Battery.label(), "battery");
    assert_eq!(PowerOptionKind::Pps.label(), "PPS");
    assert_eq!(PdEndpoint::Sop.as_str(), "SOP");
    assert_eq!(PdEndpoint::SopPrime.as_str(), "SOP'");
    assert_eq!(Status::Empty.as_str(), "empty");
    assert_eq!(Status::DataDevice.as_str(), "dataDevice");
    assert_eq!(Status::ThunderboltCable.as_str(), "thunderboltCable");
    assert_eq!(Status::DisplayCable.as_str(), "displayCable");
    assert_eq!(Bottleneck::NoCharger.label(), "noCharger");
    assert_eq!(Bottleneck::ChargerLimit { charger_w: 1 }.label(), "chargerLimit");
    assert_eq!(Bottleneck::CableLimit { cable_w: 1, charger_w: 2 }.label(), "cableLimit");
    assert_eq!(
        Bottleneck::MacLimit { negotiated_w: 1, charger_w: 2, cable_w: None }.label(),
        "macLimit"
    );
    assert_eq!(Bottleneck::Fine { negotiated_w: 1 }.label(), "fine");
}

#[test]
fn negotiated_power() {
    let s = source("port0", vec![], Some(20000), Some(2500));
    assert_eq!(s.negotiated_mw(), Some(50000));
    let s = source("port0", vec![], Some(20000), None);
    assert_eq!(s.negotiated_mw(), None);
}

#[test]
fn alt_mode_kinds() {
    let dp = AltMode { svid: 0xff01, vdo: 0, active: true, description: None };
    let tb = AltMode { svid: 0x8087, vdo: 0, active: false, description: None };
    assert!(dp.is_displayport() && !dp.is_thunderbolt());
    assert!(tb.is_thunderbolt() && !tb.is_displayport());
    let mut p = port("port0");
    p.alt_modes = vec![dp, tb];
    assert!(p.has_active_dp());
    assert!(!p.has_active_tbt());
    assert!(!p.connected());
    p.cable_present = true;
    assert!(p.connected());
}

#[test]
fn usb_speed_labels() {
    let mut d = UsbDevice {
        bus: 1,
        devnum: 1,
        path: "usb1".to_string(),
        speed_mbps: Some(20000),
        vendor_id: None,
        product_id: None,
        manufacturer: None,
        product: None,
    };
    assert_eq!(d.speed_label(), "USB4 (20 Gbps)");
    d.speed_mbps = Some(10000);
    assert_eq!(d.speed_label(), "SuperSpeed+ (10 Gbps)");
    d.speed_mbps = Some(5000);
    assert_eq!(d.speed_label(), "SuperSpeed (5 Gbps)");
    d.speed_mbps = Some(480);
    assert_eq!(d.speed_label(), "High-Speed (480 Mbps)");
    d.speed_mbps = Some(12);
    assert_eq!(d.speed_label(), "Full-Speed (12 Mbps)");
    d.speed_mbps = Some(40000);
    assert_eq!(d.speed_label(), "40 Gbps");
    d.speed_mbps = Some(1500);
    assert_eq!(d.speed_label(), "1 Gbps");
    d.speed_mbps = Some(1);
    assert_eq!(d.speed_label(), "1 Mbps");
    d.speed_mbps = None;
    assert_eq!(d.speed_label(), "unknown speed");
}

#[test]
fn preferred_source_is_last_maximum() {
    let a = source("p", vec![PowerOption::fixed(5000, 6000)], None, None);
    let b = source("p", vec![PowerOption::fixed(20000, 3000)], None, None);
    let mut c = source("p", vec![PowerOption::fixed(20000, 3000)], None, None);
    c.name = "last".to_string();
    let d = source("p", vec![PowerOption::fixed(5000, 3000)], None, None);
    let srcs = vec![&a, &b, &c, &d];
    let chosen = preferred_charging_source(&srcs).unwrap();
    assert_eq!(chosen.name, "last");
    assert_eq!(chosen.max_power_mw, 60000);
    let none: Vec<&PowerSource> = vec![];
    assert!(preferred_charging_source(&none).is_none());
}

#[test]
fn nothing_connected() {
    let p = port("port2");
    let s = summarize(&p, &[], &[], &[]);
    assert_eq!(s.status, Status::Empty);
    assert_eq!(s.headline, "Nothing connected");
    assert_eq!(s.subtitle, "Plug a cable into port2 to see what it can do.");
    assert!(s.bullets.is_empty());
    assert!(diagnose(&p, &[], &[]).is_none());
}

#[test]
fn display_only() {
    let mut p = port("port0");
    p.partner_present = true;
    p.alt_modes = vec![AltMode { svid: 0xff01, vdo: 0, active: true, description: None }];
    let s = summarize(&p, &[], &[], &[]);
    assert_eq!(s.status, Status::DisplayCable);
    assert_eq!(s.headline, "Display connected");
    assert_eq!(s.subtitle, "DisplayPort video over USB-C alt mode.");
    assert_eq!(
        s.bullets,
        vec![
            "Carrying DisplayPort video".to_string(),
            "Cable does not advertise an e-marker (basic cable)".to_string(),
        ]
    );
}

#[test]
fn pd_data_device_with_identity() {
    let mut p = port("port1");
    p.partner_present = true;
    p.power_operation_mode = Some("usb_power_delivery".to_string());
    let mut partner = identity("port1", PdEndpoint::Sop, 0x05ac);
    partner.id_header = Some(IdHeader::decode((2 << 27) | 0x05ac));
    let s = summarize(&p, &[], &[&partner], &[]);
    assert_eq!(s.status, Status::DataDevice);
    assert_eq!(s.headline, "USB device");
    assert_eq!(s.subtitle, "PD-capable partner connected.");
    assert_eq!(
        s.bullets,
        vec![
            "USB Power Delivery negotiated".to_string(),
            "Cable does not advertise an e-marker (basic cable)".to_string(),
            "Connected device: Peripheral \u{2014} Apple".to_string(),
        ]
    );
}

#[test]
fn partner_without_header_names_its_vendor() {
    let mut p = port("port1");
    p.partner_present = true;
    let partner = identity("port1", PdEndpoint::Sop, 0x1234);
    let s = summarize(&p, &[], &[&partner], &[]);
    assert_eq!(s.status, Status::Unknown);
    assert_eq!(s.headline, "Connected");
    assert_eq!(s.subtitle, "Cable/partner attached, but kernel did not expose detailed capabilities.");
    assert_eq!(s.bullets.last().unwrap(), "Connected device vendor: Vendor 0x1234");
}

#[test]
fn charging_headline_and_power_bullets() {
    let mut p = port("port0");
    p.partner_present = true;
    let mut src = source(
        "port0",
        vec![PowerOption::fixed(5000, 3000), PowerOption::fixed(15000, 3000)],
        Some(15000),
        Some(3000),
    );
    src.usb_type = Some("C [PD] PD_PPS".to_string());
    let t = text_for(&src, &["5V/3.00A", "15V/3.00A"], Some("15V @ 3.00A (45.0W)"));
    let s = summarize(&p, &[&src], &[], &[&t]);
    assert_eq!(s.status, Status::Charging);
    assert_eq!(s.headline, "Charging \u{b7} 45W charger");
    assert_eq!(s.subtitle, "Power is flowing.");
    assert_eq!(
        s.bullets,
        vec![
            "Cable does not advertise an e-marker (basic cable)".to_string(),
            "Charger advertises up to 45W".to_string(),
            "PDOs: 5V/3.00A, 15V/3.00A".to_string(),
            "Currently negotiated: 15V @ 3.00A (45.0W)".to_string(),
            "Power supply usb_type: C [PD] PD_PPS".to_string(),
        ]
    );
}

#[test]
fn emarker_cable_bullets() {
    let mut p = port("port0");
    p.cable_present = true;
    p.alt_modes = vec![AltMode { svid: 0x8087, vdo: 0, active: true, description: None }];
    let mut cable = identity("port0", PdEndpoint::SopPrime, 0x05ac);
    // 40 Gbps, 5 A, 50 V, active.
    cable.cable_vdo = Some(CableVdo::decode((3 << 9) | (2 << 5) | 4, true));
    let s = summarize(&p, &[], &[&cable], &[]);
    assert_eq!(s.status, Status::ThunderboltCable);
    assert_eq!(s.headline, "Thunderbolt / USB4");
    assert_eq!(s.subtitle, "Supports high-speed data, smart cable.");
    assert_eq!(
        s.bullets,
        vec![
            "Thunderbolt / USB4 alt mode active".to_string(),
            "Cable has an e-marker chip (advertises its capabilities)".to_string(),
            "Cable speed: USB4 Gen 3 (40 Gbps)".to_string(),
            "Cable rated for 5A at up to 50V (~240W)".to_string(),
            "Active cable (contains signal-conditioning electronics)".to_string(),
            "Cable made by Apple".to_string(),
        ]
    );
}

#[test]
fn cable_without_identity() {
    let mut p = port("port0");
    p.cable_present = true;
    p.cable_type = Some("passive".to_string());
    let s = summarize(&p, &[], &[], &[]);
    assert_eq!(s.status, Status::Unknown);
    assert_eq!(
        s.bullets,
        vec![
            "Cable e-marker present (no identity exposed by kernel)".to_string(),
            "Cable type: passive".to_string(),
        ]
    );
}

#[test]
fn summary_is_empty_exactly_when_disconnected() {
    let p = port("port0");
    assert!(summarize(&p, &[], &[], &[]).bullets.is_empty());
    let mut q = port("port0");
    q.partner_present = true;
    assert!(!summarize(&q, &[], &[], &[]).bullets.is_empty());
}

#[test]
fn diagnose_cable_limit() {
    let mut p = port("port0");
    p.partner_present = true;
    let src = source("port0", vec![PowerOption::fixed(20000, 5000)], Some(20000), Some(3000));
    let mut cable = identity("port0", PdEndpoint::SopPrime, 0);
    cable.cable_vdo = Some(CableVdo::decode(1 << 5, false));
    let d = diagnose(&p, &[&src], &[&cable]).unwrap();
    assert!(matches!(d.bottleneck, Bottleneck::CableLimit { cable_w: 60, charger_w: 100 }));
    assert_eq!(d.summary, "Cable is limiting charging speed");
    assert_eq!(
        d.detail,
        "Charger can deliver up to 100W, but this cable is only rated for 60W. Replace the cable to charge faster."
    );
    assert!(d.is_warning);
}

#[test]
fn diagnose_system_limit() {
    let mut p = port("port0");
    p.partner_present = true;
    let src = source("port0", vec![PowerOption::fixed(20000, 5000)], Some(20000), Some(1500));
    let d = diagnose(&p, &[&src], &[]).unwrap();
    assert!(matches!(
        d.bottleneck,
        Bottleneck::MacLimit { negotiated_w: 30, charger_w: 100, cable_w: None }
    ));
    assert_eq!(d.summary, "Charging at 30W (charger can do up to 100W)");
    assert_eq!(
        d.detail,
        "Both the charger and cable can do more, but the system is currently asking for less. Normal once the battery is mostly full or the system is idle."
    );
    assert!(d.is_warning);
}

#[test]
fn diagnose_fine_when_close() {
    let mut p = port("port0");
    p.partner_present = true;
    let src = source("port0", vec![PowerOption::fixed(20000, 5000)], Some(20000), Some(4600));
    let d = diagnose(&p, &[&src], &[]).unwrap();
    assert!(matches!(d.bottleneck, Bottleneck::Fine { negotiated_w: 92 }));
    assert_eq!(d.summary, "Charging well at 92W");
    assert_eq!(d.detail, "Charger and cable are well-matched.");
    assert!(!d.is_warning);
}

#[test]
fn diagnose_capable_cable_still_system_limit() {
    let mut p = port("port0");
    p.partner_present = true;
    let src = source("port0", vec![PowerOption::fixed(20000, 5000)], Some(20000), Some(1000));
    let mut cable = identity("port0", PdEndpoint::SopPrime, 0);
    // 5 A with the EPR voltage code: 240 W, more than the charger.
    cable.cable_vdo = Some(CableVdo::decode((3 << 9) | (2 << 5), false));
    let d = diagnose(&p, &[&src], &[&cable]).unwrap();
    assert!(matches!(
        d.bottleneck,
        Bottleneck::MacLimit { negotiated_w: 20, charger_w: 100, cable_w: Some(240) }
    ));
}

#[test]
fn diagnose_charger_limit_before_negotiation() {
    let mut p = port("port0");
    p.partner_present = true;
    let src = source("port0", vec![PowerOption::fixed(15000, 3000)], None, None);
    let d = diagnose(&p, &[&src], &[]).unwrap();
    assert!(matches!(d.bottleneck, Bottleneck::ChargerLimit { charger_w: 45 }));
    assert_eq!(d.summary, "Charger advertises up to 45W");
    assert_eq!(d.detail, "Negotiation hasn't completed yet.");
    assert!(!d.is_warning);
}

#[test]
fn diagnose_nothing_to_say() {
    let mut p = port("port0");
    p.partner_present = true;
    let src = source("port0", vec![], None, None);
    assert!(diagnose(&p, &[&src], &[]).is_none());
    assert!(diagnose(&p, &[], &[]).is_none());
    let q = port("port0");
    let live = source("port0", vec![PowerOption::fixed(5000, 3000)], None, None);
    assert!(diagnose(&q, &[&live], &[]).is_none());
}

#[test]
fn range_checks() {
    let p = port("port0");
    let mut huge = source("port0", vec![PowerOption::fixed(5000, 3000)], None, None);
    huge.max_power_mw = u32::MAX;
    assert!(!port_in_range(&p, &[&huge]));
    let ok = source("port0", vec![PowerOption::fixed(5000, 3000)], None, None);
    assert!(port_in_range(&p, &[&ok]));
    let t = text_for(&ok, &["5V/3.00A"], None);
    assert!(texts_match(&vec![ok.clone()], &vec![t.clone()]));
    let wrong = text_for(&ok, &["5V/3.00A"], None);
    let mut wrong = wrong;
    wrong.negotiated = Some("x".to_string());
    assert!(!texts_match(&vec![ok], &vec![wrong]));
}
