use whatcable::json::{alt_mode_name, port_dto};
use whatcable::snapshot::{
    AltMode, CableSnapshot, PowerOption, PowerSource, ThunderboltDevice, UsbDevice, UsbcPort,
};
use whatcable::summary::{PowerText, Status};
use whatcable::text::{format_tb_device, format_usb_device, render, render_fits, status_color};

fn bare_port(name: &str) -> UsbcPort {
    UsbcPort {
        port_key: name.to_string(),
        name: name.to_string(),
        data_role: None,
        power_role: None,
        power_operation_mode: None,
        typec_revision: None,
        pd_revision: None,
        partner_present: false,
        partner_supports_pd: None,
        partner_pd_revision: None,
        cable_present: false,
        cable_type: None,
        alt_modes: vec![],
        raw_attrs: vec![],
    }
}

fn tb_dp_port(name: &str, power_role: &str) -> UsbcPort {
    let mut p = bare_port(name);
    p.data_role = Some("host".to_string());
    p.power_role = Some(power_role.to_string());
    p.power_operation_mode = Some("usb_power_delivery".to_string());
    p.partner_present = true;
    p.alt_modes = vec![
        AltMode { svid: 0x8087, vdo: 0x1, active: true, description: Some("TBT".to_string()) },
        AltMode { svid: 0xff01, vdo: 0x1c46, active: true, description: None },
    ];
    p
}

fn usb(bus: u32, devnum: u32, path: &str, ids: (u16, u16), speed: u32, m: Option<&str>, p: Option<&str>) -> UsbDevice {
    UsbDevice {
        bus,
        devnum,
        path: path.to_string(),
        speed_mbps: Some(speed),
        vendor_id: Some(ids.0),
        product_id: Some(ids.1),
        manufacturer: m.map(|s| s.to_string()),
        product: p.map(|s| s.to_string()),
    }
}

/// The machine of the README's example.
fn readme_snapshot() -> (CableSnapshot, Vec<PowerText>) {
    let options = vec![
        PowerOption::fixed(5000, 2000),
        PowerOption::fixed(9000, 2440),
        PowerOption::fixed(15000, 2000),
        PowerOption::fixed(20000, 2500),
    ];
    let charger = PowerSource {
        port_key: "port0".to_string(),
        name: "pd0".to_string(),
        max_power_mw: 50000,
        winning: Some(options[3]),
        options,
        negotiated_mv: Some(20000),
        negotiated_ma: Some(2500),
        usb_type: Some("C [PD] PD_PPS".to_string()),
    };
    let sink = PowerSource {
        port_key: "port1".to_string(),
        name: "pd1".to_string(),
        max_power_mw: 0,
        options: vec![],
        winning: None,
        negotiated_mv: None,
        negotiated_ma: None,
        usb_type: Some("C [PD] PD_PPS".to_string()),
    };
    let hc = Some("Linux 6.17.0-23-generic xhci-hcd");
    let xhci = Some("xHCI Host Controller");
    let usb_devices = vec![
        usb(1, 1, "usb1", (0x1d6b, 0x0002), 480, hc, xhci),
        usb(2, 1, "usb2", (0x1d6b, 0x0003), 10000, hc, xhci),
        usb(2, 2, "2-1", (0x2109, 0x0822), 10000, Some("VIA Labs, Inc."), Some("USB3.1 Hub")),
        usb(2, 3, "2-2", (0x0bda, 0x9210), 10000, Some("Realtek"), Some("RTL9210")),
        usb(2, 4, "2-1.2", (0x152d, 0xa580), 10000, Some("JMicron"), Some("USB Mass Storage")),
        usb(2, 5, "2-1.3", (0x05e3, 0x0626), 5000, Some("GenesysLogic"), Some("USB3.1 Hub")),
        usb(2, 6, "2-1.3.4", (0x0b95, 0x1790), 5000, Some("ASIX"), Some("AX88179B")),
        usb(3, 1, "usb3", (0x1d6b, 0x0002), 480, hc, xhci),
        usb(3, 2, "3-1", (0x2109, 0x2822), 480, Some("VIA Labs, Inc."), Some("USB2.0 Hub")),
        usb(3, 3, "3-2", (0x1a86, 0x8095), 480, None, Some("USB Hub")),
        usb(3, 4, "3-6", (0x0bda, 0x5532), 480, Some("CKFIH56R29344008D4A0"), Some("Integrated_Webcam_HD")),
        usb(3, 5, "3-1.3", (0x05e3, 0x0610), 480, Some("GenesysLogic"), Some("USB2.1 Hub")),
        usb(3, 6, "3-8", (0x0a5c, 0x5842), 480, Some("Broadcom Corp"), Some("58200")),
        usb(3, 7, "3-1.5", (0x2109, 0x8822), 480, Some("VIA Labs, Inc."), Some("USB Billboard Device")),
        usb(3, 8, "3-10", (0x8087, 0x0026), 12, None, None),
        usb(4, 1, "usb4", (0x1d6b, 0x0003), 10000, hc, xhci),
    ];
    let snap = CableSnapshot {
        ports: vec![tb_dp_port("port0", "sink"), tb_dp_port("port1", "source")],
        power_sources: vec![charger, sink],
        identities: vec![],
        usb_devices,
        thunderbolt_devices: vec![ThunderboltDevice {
            path: "0-0".to_string(),
            vendor_name: None,
            device_name: None,
            authorized: Some(true),
        }],
    };
    let texts = vec![
        PowerText {
            pdos: vec![
                "5V/2.00A".to_string(),
                "9V/2.44A".to_string(),
                "15V/2.00A".to_string(),
                "20V/2.50A".to_string(),
            ],
            negotiated: Some("20V @ 2.50A (50.0W)".to_string()),
        },
        PowerText { pdos: vec![], negotiated: None },
    ];
    (snap, texts)
}

const README_REPORT: &str = "\
=== port0 ===
Thunderbolt / USB4 \u{b7} 50W charger
Supports high-speed data, video.
  role: host / sink

  \u{2022} Thunderbolt / USB4 alt mode active
  \u{2022} USB Power Delivery negotiated
  \u{2022} Cable does not advertise an e-marker (basic cable)
  \u{2022} Charger advertises up to 50W
  \u{2022} PDOs: 5V/2.00A, 9V/2.44A, 15V/2.00A, 20V/2.50A
  \u{2022} Currently negotiated: 20V @ 2.50A (50.0W)
  \u{2022} Power supply usb_type: C [PD] PD_PPS

Charging: Charging well at 50W
  Charger and cable are well-matched.

=== port1 ===
Thunderbolt / USB4
Supports high-speed data, video.
  role: host / source

  \u{2022} Thunderbolt / USB4 alt mode active
  \u{2022} USB Power Delivery negotiated
  \u{2022} Cable does not advertise an e-marker (basic cable)
  \u{2022} Power supply usb_type: C [PD] PD_PPS

=== Attached USB devices ===
  \u{2022} bus 1 dev 1 [usb1] 1d6b:0002 \u{b7} High-Speed (480 Mbps) \u{2014} Linux 6.17.0-23-generic xhci-hcd xHCI Host Controller
  \u{2022} bus 2 dev 1 [usb2] 1d6b:0003 \u{b7} SuperSpeed+ (10 Gbps) \u{2014} Linux 6.17.0-23-generic xhci-hcd xHCI Host Controller
  \u{2022} bus 2 dev 2 [2-1] 2109:0822 \u{b7} SuperSpeed+ (10 Gbps) \u{2014} VIA Labs, Inc. USB3.1 Hub
  \u{2022} bus 2 dev 3 [2-2] 0bda:9210 \u{b7} SuperSpeed+ (10 Gbps) \u{2014} Realtek RTL9210
  \u{2022} bus 2 dev 4 [2-1.2] 152d:a580 \u{b7} SuperSpeed+ (10 Gbps) \u{2014} JMicron USB Mass Storage
  \u{2022} bus 2 dev 5 [2-1.3] 05e3:0626 \u{b7} SuperSpeed (5 Gbps) \u{2014} GenesysLogic USB3.1 Hub
  \u{2022} bus 2 dev 6 [2-1.3.4] 0b95:1790 \u{b7} SuperSpeed (5 Gbps) \u{2014} ASIX AX88179B
  \u{2022} bus 3 dev 1 [usb3] 1d6b:0002 \u{b7} High-Speed (480 Mbps) \u{2014} Linux 6.17.0-23-generic xhci-hcd xHCI Host Controller
  \u{2022} bus 3 dev 2 [3-1] 2109:2822 \u{b7} High-Speed (480 Mbps) \u{2014} VIA Labs, Inc. USB2.0 Hub
  \u{2022} bus 3 dev 3 [3-2] 1a86:8095 \u{b7} High-Speed (480 Mbps) \u{2014} USB Hub
  \u{2022} bus 3 dev 4 [3-6] 0bda:5532 \u{b7} High-Speed (480 Mbps) \u{2014} CKFIH56R29344008D4A0 Integrated_Webcam_HD
  \u{2022} bus 3 dev 5 [3-1.3] 05e3:0610 \u{b7} High-Speed (480 Mbps) \u{2014} GenesysLogic USB2.1 Hub
  \u{2022} bus 3 dev 6 [3-8] 0a5c:5842 \u{b7} High-Speed (480 Mbps) \u{2014} Broadcom Corp 58200
  \u{2022} bus 3 dev 7 [3-1.5] 2109:8822 \u{b7} High-Speed (480 Mbps) \u{2014} VIA Labs, Inc. USB Billboard Device
  \u{2022} bus 3 dev 8 [3-10] 8087:0026 \u{b7} Full-Speed (12 Mbps) \u{2014} 8087:0026
  \u{2022} bus 4 dev 1 [usb4] 1d6b:0003 \u{b7} SuperSpeed+ (10 Gbps) \u{2014} Linux 6.17.0-23-generic xhci-hcd xHCI Host Controller

=== Thunderbolt devices ===
  \u{2022} 0-0 [0-0] authorized
";

#[test]
fn readme_example_report() {
    let (snap, texts) = readme_snapshot();
    assert!(render_fits(&snap));
    assert_eq!(render(&snap, &texts, false, false), README_REPORT);
}

#[test]
fn no_ports_message() {
    let snap = CableSnapshot::default();
    assert_eq!(
        render(&snap, &vec![], false, true),
        "No USB-C / Type-C ports were found on this system.\n(No /sys/class/typec entries \u{2014} kernel typec class may not be populated.)\n"
    );
}

#[test]
fn colored_header_lines() {
    let mut snap = CableSnapshot::default();
    snap.ports.push(bare_port("port3"));
    let out = render(&snap, &vec![], false, true);
    assert_eq!(
        out,
        "\x1b[1m\x1b[36m=== port3 ===\x1b[0m\n\x1b[1m\x1b[90mNothing connected\x1b[0m\n\x1b[2mPlug a cable into port3 to see what it can do.\x1b[0m\n"
    );
}

#[test]
fn raw_attributes_section() {
    let mut snap = CableSnapshot::default();
    let mut p = bare_port("port0");
    p.raw_attrs = vec![
        ("data_role".to_string(), "[host] device".to_string()),
        ("partner/type".to_string(), "usb".to_string()),
    ];
    snap.ports.push(p);
    let out = render(&snap, &vec![], true, false);
    assert_eq!(
        out,
        "=== port0 ===\nNothing connected\nPlug a cable into port0 to see what it can do.\n\nRaw sysfs attributes:\n  data_role = [host] device\n  partner/type = usb\n"
    );
}

#[test]
fn status_colors() {
    assert_eq!(status_color(Status::Empty), "\x1b[90m");
    assert_eq!(status_color(Status::Charging), "\x1b[33m");
    assert_eq!(status_color(Status::DataDevice), "\x1b[34m");
    assert_eq!(status_color(Status::ThunderboltCable), "\x1b[35m");
    assert_eq!(status_color(Status::DisplayCable), "\x1b[36m");
    assert_eq!(status_color(Status::Unknown), "\x1b[33m");
}

#[test]
fn usb_device_lines() {
    let d = usb(1, 2, "1-2", (0x046d, 0xc52b), 12, Some("Logitech"), Some("USB Receiver"));
    assert_eq!(
        format_usb_device(&d, true),
        "  \x1b[90m\u{2022}\x1b[0m bus 1 dev 2 [1-2] \x1b[2m046d:c52b \u{b7} Full-Speed (12 Mbps)\x1b[0m \u{2014} Logitech USB Receiver\n"
    );
    let mut e = usb(5, 9, "5-1", (0, 0), 1, Some("Maker"), None);
    e.vendor_id = None;
    assert_eq!(
        format_usb_device(&e, false),
        "  \u{2022} bus 5 dev 9 [5-1] ----:0000 \u{b7} 1 Mbps \u{2014} Maker\n"
    );
}

#[test]
fn thunderbolt_device_lines() {
    let d = ThunderboltDevice {
        path: "0-1".to_string(),
        vendor_name: Some("Dell".to_string()),
        device_name: Some("WD19TB".to_string()),
        authorized: Some(false),
    };
    assert_eq!(
        format_tb_device(&d, true),
        "  \x1b[90m\u{2022}\x1b[0m Dell WD19TB [0-1] \x1b[31munauthorized\x1b[0m\n"
    );
    let e = ThunderboltDevice {
        path: "0-2".to_string(),
        vendor_name: None,
        device_name: Some("Dock".to_string()),
        authorized: None,
    };
    assert_eq!(format_tb_device(&e, false), "  \u{2022} Dock [0-2] \u{2014}\n");
}

#[test]
fn alt_mode_names() {
    assert_eq!(alt_mode_name(0xff01), "DisplayPort");
    assert_eq!(alt_mode_name(0x8087), "Thunderbolt");
    assert_eq!(alt_mode_name(0x413c), "Dell");
    assert_eq!(alt_mode_name(0x1234), "Vendor");
}

#[test]
fn port_report_of_readme_port() {
    let (snap, texts) = readme_snapshot();
    let r = port_dto(&snap, &snap.ports[0], &texts, true);
    assert_eq!(r.name, "port0");
    assert!(r.connected);
    assert_eq!(r.data_role.as_deref(), Some("host"));
    assert_eq!(r.power_role.as_deref(), Some("sink"));
    assert_eq!(r.power_operation_mode.as_deref(), Some("usb_power_delivery"));
    assert_eq!(r.status, "thunderboltCable");
    assert_eq!(r.headline, "Thunderbolt / USB4 \u{b7} 50W charger");
    assert_eq!(r.subtitle, "Supports high-speed data, video.");
    assert_eq!(r.bullets.len(), 7);
    assert_eq!(r.alt_modes.len(), 2);
    assert_eq!(r.alt_modes[0].svid_hex, "0x8087");
    assert_eq!(r.alt_modes[0].vdo_hex, "0x00000001");
    assert_eq!(r.alt_modes[0].name, "Thunderbolt");
    assert_eq!(r.alt_modes[0].description.as_deref(), Some("TBT"));
    assert_eq!(r.alt_modes[1].svid_hex, "0xff01");
    assert_eq!(r.alt_modes[1].vdo_hex, "0x00001c46");
    assert_eq!(r.alt_modes[1].name, "DisplayPort");
    assert_eq!(r.power_sources.len(), 1);
    let ps = &r.power_sources[0];
    assert_eq!(ps.name, "pd0");
    assert_eq!(ps.max_power_mw, 50000);
    assert_eq!(ps.options.len(), 4);
    assert_eq!(ps.options[1].kind, "fixed");
    assert_eq!(ps.options[1].voltage_mv, 9000);
    assert_eq!(ps.options[1].current_ma, 2440);
    assert_eq!(ps.options[1].power_mw, 21960);
    let n = ps.negotiated.as_ref().unwrap();
    assert_eq!((n.voltage_mv, n.current_ma), (20000, 2500));
    assert_eq!(ps.winning.as_ref().unwrap().voltage_mv, 20000);
    assert_eq!(ps.usb_type.as_deref(), Some("C [PD] PD_PPS"));
    assert!(r.cable.is_none());
    assert!(r.device.is_none());
    let c = r.charging.as_ref().unwrap();
    assert_eq!(c.bottleneck, "fine");
    assert_eq!(c.summary, "Charging well at 50W");
    assert!(!c.is_warning);
    assert_eq!(r.raw.as_ref().unwrap().len(), 0);
    let r1 = port_dto(&snap, &snap.ports[1], &texts, false);
    assert!(r1.charging.is_none());
    assert!(r1.raw.is_none());
    assert_eq!(r1.power_sources[0].max_power_mw, 0);
}
