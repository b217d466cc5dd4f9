use whatcable::backend::{
    build_snapshot, cable_attr_names, parse_pdo, partner_attr_names, port_attr_names,
    raw_in_range, RawAltDir, RawIdentity, RawMode, RawPdLink, RawPdo, RawSupply, RawSysfs,
    RawTbDevice, RawTypecEntry, RawUsbDevice,
};
use whatcable::pdvdo::{CableSpeed, CableType, ProductType};
use whatcable::snapshot::{PdEndpoint, PowerOptionKind};

fn some(s: &str) -> Option<String> {
    Some(s.to_string())
}

fn blank_entry(name: &str) -> RawTypecEntry {
    RawTypecEntry {
        name: name.to_string(),
        port_attrs: vec![None; 11],
        partner_present: false,
        partner_attrs: vec![None; 6],
        cable_present: false,
        cable_attrs: vec![None; 3],
        alt_dirs: vec![],
        partner_identity: None,
        cable_identity: None,
        pd_link: None,
    }
}

fn mode(name: &str, active: Option<&str>, vdo: Option<&str>, desc: Option<&str>) -> RawMode {
    RawMode {
        name: name.to_string(),
        active: active.map(|s| s.to_string()),
        vdo: vdo.map(|s| s.to_string()),
        description: desc.map(|s| s.to_string()),
    }
}

fn pdo(entry: &str, voltage: Option<&str>, current: Option<&str>) -> RawPdo {
    RawPdo {
        entry: entry.to_string(),
        voltage: voltage.map(|s| s.to_string()),
        maximum_voltage: None,
        maximum_current: current.map(|s| s.to_string()),
        operational_current: None,
        maximum_power: None,
    }
}

fn raw_identity(id_header: Option<&str>, product: Option<&str>, vdo1: Option<&str>) -> RawIdentity {
    RawIdentity {
        id_header: id_header.map(|s| s.to_string()),
        cert_stat: None,
        product: product.map(|s| s.to_string()),
        product_type_vdo1: vdo1.map(|s| s.to_string()),
        product_type_vdo2: None,
        product_type_vdo3: None,
    }
}

fn usb_dev(name: &str, bus: Option<&str>, dev: Option<&str>, speed: Option<&str>) -> RawUsbDevice {
    RawUsbDevice {
        name: name.to_string(),
        busnum: bus.map(|s| s.to_string()),
        devnum: dev.map(|s| s.to_string()),
        speed: speed.map(|s| s.to_string()),
        id_vendor: some("05e3"),
        id_product: some("0626"),
        manufacturer: None,
        product: some("Hub"),
    }
}

fn sample() -> RawSysfs {
    let mut port0 = blank_entry("port0");
    port0.port_attrs[0] = some("[host] device");
    port0.port_attrs[1] = some("source [sink]");
    port0.port_attrs[4] = some("usb_power_delivery");
    port0.port_attrs[7] = some("3.0");
    port0.port_attrs[8] = some("2.0");
    port0.partner_present = true;
    port0.partner_attrs[0] = some("yes");
    port0.partner_attrs[4] = some("usb");
    port0.cable_present = true;
    port0.cable_attrs[0] = some("active");
    port0.alt_dirs = vec![
        RawAltDir {
            name: "port0.0".to_string(),
            svid: some("8087"),
            modes: vec![
                mode("mode1", Some("no"), Some("0x00000007"), Some("first")),
                mode("mode2", Some("yes"), Some("0x00000001"), Some("Thunderbolt3")),
                mode("mode3", Some("yes"), Some("0x00000009"), None),
            ],
        },
        RawAltDir {
            name: "port0.1".to_string(),
            svid: some("0xff01"),
            modes: vec![
                mode("mode1", Some("no"), Some("0x1"), None),
                mode("mode2", None, Some("0x2"), Some("last")),
                mode("power", Some("yes"), Some("0x3"), None),
            ],
        },
        RawAltDir { name: "port0.2".to_string(), svid: some("zz"), modes: vec![] },
        RawAltDir { name: "power".to_string(), svid: some("1"), modes: vec![] },
    ];
    port0.partner_identity = Some(raw_identity(Some("0x080005ac"), Some("0x0001abcd"), Some("0x243")));
    port0.cable_identity = Some(raw_identity(Some("0x1c0005ac"), None, Some("0x00000243")));
    port0.pd_link = Some(RawPdLink {
        name: some("pd0"),
        source_capabilities: Some(vec![
            pdo("2:fixed_supply", Some("9000mV"), Some("3000mA")),
            pdo("1:fixed_supply", Some("5000mV"), Some("3000mA")),
            RawPdo {
                entry: "3:programmable_supply".to_string(),
                voltage: None,
                maximum_voltage: some("21000mV"),
                maximum_current: some("3000mA"),
                operational_current: None,
                maximum_power: some("60000mW"),
            },
            pdo("4:unknown_supply", Some("1mV"), None),
            pdo("notes", Some("1mV"), None),
        ]),
    });
    let mut port1 = blank_entry("port1");
    port1.pd_link = Some(RawPdLink { name: None, source_capabilities: None });
    RawSysfs {
        typec: vec![
            port1,
            blank_entry("port0-cable"),
            blank_entry("port0-partner"),
            port0,
            blank_entry("usb-c-port"),
        ],
        supplies: vec![
            RawSupply {
                name: "BAT0".to_string(),
                online: some("1"),
                voltage_now: some("12000000"),
                current_now: some("1000000"),
                usb_type: None,
            },
            RawSupply {
                name: "ucsi-source-psy-USBC000:001".to_string(),
                online: some("1"),
                voltage_now: some("9000000"),
                current_now: some("2000000"),
                usb_type: some("C [PD] PD_PPS"),
            },
            RawSupply {
                name: "ucsi-source-psy-USBC000:002".to_string(),
                online: some("0"),
                voltage_now: some("5000000"),
                current_now: some("0"),
                usb_type: None,
            },
        ],
        usb_devices: Some(vec![
            usb_dev("2-1", Some("2"), Some("3"), Some("5000")),
            usb_dev("1-0:1.0", Some("1"), Some("9"), None),
            usb_dev("usb2", Some("2"), Some("1"), Some("10000")),
            usb_dev("usb1", Some("1"), None, Some("480")),
            usb_dev("broken", None, Some("4"), None),
        ]),
        thunderbolt_devices: Some(vec![
            RawTbDevice {
                name: "domain0".to_string(),
                vendor_name: None,
                device_name: None,
                authorized: None,
            },
            RawTbDevice {
                name: "0-1".to_string(),
                vendor_name: some("Dell"),
                device_name: some("WD19TB"),
                authorized: some("0"),
            },
        ]),
    }
}

#[test]
fn attribute_name_lists() {
    assert_eq!(port_attr_names().len(), 11);
    assert_eq!(port_attr_names()[0], "data_role");
    assert_eq!(port_attr_names()[10], "usb_capability");
    assert_eq!(partner_attr_names()[0], "supports_usb_power_delivery");
    assert_eq!(cable_attr_names(), vec!["type", "plug_type", "usb_power_delivery_revision"]);
}

#[test]
fn ports_in_key_order_with_attributes() {
    let raw = sample();
    assert!(raw_in_range(&raw));
    let snap = build_snapshot(&raw);
    let names: Vec<&str> = snap.ports.iter().map(|p| p.name.as_str()).collect();
    assert_eq!(names, vec!["port0", "port1"]);
    let p = &snap.ports[0];
    assert_eq!(p.port_key, "port0");
    assert_eq!(p.data_role.as_deref(), Some("host"));
    assert_eq!(p.power_role.as_deref(), Some("sink"));
    assert_eq!(p.power_operation_mode.as_deref(), Some("usb_power_delivery"));
    assert_eq!(p.pd_revision.as_deref(), Some("3.0"));
    assert_eq!(p.typec_revision.as_deref(), Some("2.0"));
    assert_eq!(p.partner_supports_pd, Some(true));
    assert!(p.partner_present && p.cable_present);
    assert_eq!(p.cable_type.as_deref(), Some("active"));
    let raw_attrs: Vec<(&str, &str)> =
        p.raw_attrs.iter().map(|(k, v)| (k.as_str(), v.as_str())).collect();
    assert_eq!(
        raw_attrs,
        vec![
            ("data_role", "[host] device"),
            ("power_role", "source [sink]"),
            ("power_operation_mode", "usb_power_delivery"),
            ("usb_power_delivery_revision", "3.0"),
            ("usb_typec_revision", "2.0"),
            ("partner/supports_usb_power_delivery", "yes"),
            ("partner/type", "usb"),
            ("cable/type", "active"),
        ]
    );
    assert!(snap.ports[1].raw_attrs.is_empty());
    assert_eq!(snap.ports[1].partner_supports_pd, None);
}

#[test]
fn alternate_modes_pick_first_active_else_last() {
    let snap = build_snapshot(&sample());
    let modes = &snap.ports[0].alt_modes;
    assert_eq!(modes.len(), 2);
    assert_eq!(modes[0].svid, 0x8087);
    assert_eq!(modes[0].vdo, 1);
    assert!(modes[0].active);
    assert_eq!(modes[0].description.as_deref(), Some("Thunderbolt3"));
    assert_eq!(modes[1].svid, 0xff01);
    assert_eq!(modes[1].vdo, 2);
    assert!(!modes[1].active);
    assert_eq!(modes[1].description.as_deref(), Some("last"));
}

#[test]
fn identities_partner_then_cable() {
    let snap = build_snapshot(&sample());
    assert_eq!(snap.identities.len(), 2);
    let partner = &snap.identities[0];
    assert_eq!(partner.endpoint, PdEndpoint::Sop);
    assert_eq!(partner.port_key, "port0");
    assert_eq!(partner.vendor_id, 0x05ac);
    assert_eq!(partner.product_id, 0xabcd);
    assert_eq!(partner.id_header.unwrap().ufp_product_type, ProductType::Hub);
    assert!(partner.cable_vdo.is_none());
    assert_eq!(
        partner.vdos_hex,
        vec![
            "id_header=0x080005ac".to_string(),
            "product=0x0001abcd".to_string(),
            "product_type_vdo1=0x243".to_string(),
        ]
    );
    let cable = &snap.identities[1];
    assert_eq!(cable.endpoint, PdEndpoint::SopPrime);
    assert_eq!(cable.product_id, 0);
    let cv = cable.cable_vdo.unwrap();
    assert_eq!(cv.speed, CableSpeed::Usb4Gen3);
    assert_eq!(cv.max_watts, 150);
    assert_eq!(cv.cable_type, CableType::Active);
}

#[test]
fn power_sources_from_pd_links() {
    let snap = build_snapshot(&sample());
    assert_eq!(snap.power_sources.len(), 2);
    let s = &snap.power_sources[0];
    assert_eq!(s.port_key, "port0");
    assert_eq!(s.name, "pd0");
    let volts: Vec<u32> = s.options.iter().map(|o| o.voltage_mv).collect();
    assert_eq!(volts, vec![5000, 9000, 21000]);
    assert_eq!(s.options[2].kind, PowerOptionKind::Pps);
    assert_eq!(s.options[2].max_power_mw, 60000);
    assert_eq!(s.options[1].max_power_mw, 27000);
    assert_eq!(s.max_power_mw, 60000);
    assert_eq!(s.negotiated_mv, Some(9000));
    assert_eq!(s.negotiated_ma, Some(2000));
    assert_eq!(s.winning.unwrap().voltage_mv, 9000);
    assert_eq!(s.usb_type.as_deref(), Some("C [PD] PD_PPS"));
    let t = &snap.power_sources[1];
    assert_eq!(t.port_key, "port1");
    assert_eq!(t.name, "pd");
    assert!(t.options.is_empty());
    assert_eq!(t.max_power_mw, 0);
    assert_eq!(t.negotiated_mv, None);
    assert!(t.winning.is_none());
}

#[test]
fn usb_devices_by_bus_and_number() {
    let snap = build_snapshot(&sample());
    let order: Vec<(u32, u32, &str)> =
        snap.usb_devices.iter().map(|d| (d.bus, d.devnum, d.path.as_str())).collect();
    assert_eq!(order, vec![(1, 0, "usb1"), (2, 1, "usb2"), (2, 3, "2-1")]);
    assert_eq!(snap.usb_devices[2].speed_mbps, Some(5000));
    assert_eq!(snap.usb_devices[2].vendor_id, Some(0x05e3));
    assert_eq!(snap.usb_devices[2].product_id, Some(0x0626));
    assert_eq!(snap.usb_devices[2].product.as_deref(), Some("Hub"));
}

#[test]
fn thunderbolt_devices_without_domains() {
    let snap = build_snapshot(&sample());
    assert_eq!(snap.thunderbolt_devices.len(), 1);
    let d = &snap.thunderbolt_devices[0];
    assert_eq!(d.path, "0-1");
    assert_eq!(d.vendor_name.as_deref(), Some("Dell"));
    assert_eq!(d.authorized, Some(false));
}

#[test]
fn missing_roots_give_no_devices() {
    let mut raw = sample();
    raw.usb_devices = None;
    raw.thunderbolt_devices = None;
    let snap = build_snapshot(&raw);
    assert!(snap.usb_devices.is_empty());
    assert!(snap.thunderbolt_devices.is_empty());
}

#[test]
fn pdo_parsing() {
    let p = pdo("1:fixed_supply", Some("5000mV"), Some("-3mA"));
    let o = parse_pdo(&p, PowerOptionKind::Fixed).unwrap();
    assert_eq!((o.voltage_mv, o.max_current_ma, o.max_power_mw), (5000, 0, 0));
    let q = RawPdo {
        entry: "2:variable_supply".to_string(),
        voltage: None,
        maximum_voltage: some("20000mV"),
        maximum_current: None,
        operational_current: some("1500mA"),
        maximum_power: None,
    };
    let o = parse_pdo(&q, PowerOptionKind::Variable).unwrap();
    assert_eq!((o.voltage_mv, o.max_current_ma, o.max_power_mw), (20000, 1500, 30000));
    assert_eq!(o.kind, PowerOptionKind::Variable);
    let r = pdo("3:battery", None, Some("1000mA"));
    assert!(parse_pdo(&r, PowerOptionKind::Battery).is_none());
}

#[test]
fn port_number_overflow_is_out_of_range() {
    let mut raw = sample();
    let mut e = blank_entry("port4294967295");
    e.pd_link = Some(RawPdLink { name: None, source_capabilities: None });
    raw.typec.push(e);
    assert!(!raw_in_range(&raw));
}

#[test]
fn snapshot_parts_belong_to_listed_ports() {
    let snap = build_snapshot(&sample());
    let keys: Vec<&str> = snap.ports.iter().map(|p| p.port_key.as_str()).collect();
    for w in keys.windows(2) {
        assert!(w[0] < w[1]);
    }
    for s in &snap.power_sources {
        assert!(keys.contains(&s.port_key.as_str()));
    }
    for i in &snap.identities {
        assert!(keys.contains(&i.port_key.as_str()));
    }
    for d in &snap.thunderbolt_devices {
        assert!(!d.path.starts_with("domain"));
    }
}
