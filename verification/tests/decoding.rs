use whatcable::pdvdo::{
    CableCurrent, CableSpeed, CableType, CableVdo, IdHeader, ProductType, ProductVdo,
};
use whatcable::sysfs::{parse_hex_u32, read_bracketed, read_hex_u32, read_mu_int};
use whatcable::vendor::{label_for, name_for};

#[test]
fn id_header_fields() {
    // host, UFP peripheral, modal, DFP hub, Apple.
    let vdo: u32 = (1 << 31) | (2 << 27) | (1 << 26) | (1 << 23) | 0x05ac;
    let h = IdHeader::decode(vdo);
    assert!(h.usb_comm_host);
    assert!(!h.usb_comm_device);
    assert!(h.modal_operation);
    assert_eq!(h.ufp_product_type, ProductType::Peripheral);
    assert_eq!(h.dfp_product_type, ProductType::Hub);
    assert_eq!(h.vendor_id, 0x05ac);
}

#[test]
fn id_header_product_types() {
    let h = IdHeader::decode((5 << 27) | (3 << 23) | (1 << 30));
    assert!(h.usb_comm_device);
    assert!(!h.usb_comm_host);
    assert_eq!(h.ufp_product_type, ProductType::AlternateMode);
    assert_eq!(h.dfp_product_type, ProductType::Power);
    let h = IdHeader::decode((7 << 27) | (5 << 23));
    assert_eq!(h.ufp_product_type, ProductType::Other(7));
    assert_eq!(h.dfp_product_type, ProductType::Other(5));
    let h = IdHeader::decode(6 << 27);
    assert_eq!(h.ufp_product_type, ProductType::VConnPoweredAccessory);
    assert_eq!(h.dfp_product_type, ProductType::Undefined);
}

#[test]
fn product_type_labels() {
    assert_eq!(ProductType::Undefined.label(), "Unknown");
    assert_eq!(ProductType::Hub.label(), "Hub");
    assert_eq!(ProductType::PassiveCable.label(), "Passive cable");
    assert_eq!(ProductType::Amc.label(), "Alternate Mode Controller");
    assert_eq!(ProductType::Power.label(), "Power adapter");
    assert_eq!(ProductType::Other(9).label(), "Device");
}

#[test]
fn product_vdo_fields() {
    let p = ProductVdo::decode(0x1234_abcd);
    assert_eq!(p.product_id, 0xabcd);
    assert_eq!(p.bcd_device, 0x1234);
}

#[test]
fn cable_vdo_active_five_amp() {
    // 20 Gbps, 5 A, 30 V.
    let c = CableVdo::decode(0x243, true);
    assert_eq!(c.speed, CableSpeed::Usb4Gen3);
    assert_eq!(c.current, CableCurrent::A5);
    assert_eq!(c.max_volts, 30);
    assert_eq!(c.max_watts, 150);
    assert_eq!(c.cable_type, CableType::Active);
}

#[test]
fn cable_vdo_passive_three_amp() {
    let c = CableVdo::decode(0x20, false);
    assert_eq!(c.speed, CableSpeed::Usb2);
    assert_eq!(c.current, CableCurrent::A3);
    assert_eq!(c.max_volts, 20);
    assert_eq!(c.max_watts, 60);
    assert_eq!(c.cable_type, CableType::Passive);
}

#[test]
fn cable_vdo_reserved_bits() {
    // speed 7, current 3, voltage code 3 (50 V); high bits are ignored.
    let c = CableVdo::decode(0xffff_ff67 | (3 << 9), false);
    assert_eq!(c.speed, CableSpeed::Reserved);
    assert_eq!(c.current, CableCurrent::Reserved);
    assert_eq!(c.max_volts, 50);
    assert_eq!(c.max_watts, 0);
    let c = CableVdo::decode((2 << 9) | 0x44, false);
    assert_eq!(c.speed, CableSpeed::Usb4Gen4);
    assert_eq!(c.current, CableCurrent::A5);
    assert_eq!(c.max_volts, 40);
    assert_eq!(c.max_watts, 200);
}

#[test]
fn cable_vdo_epr_five_amp_is_240_watts() {
    let c = CableVdo::decode(0x640, false);
    assert_eq!(c.current, CableCurrent::A5);
    assert_eq!(c.max_volts, 50);
    assert_eq!(c.max_watts, 240);
    // The EPR code with 3 A stays volts times amps.
    let c = CableVdo::decode((3 << 9) | (1 << 5), false);
    assert_eq!(c.current, CableCurrent::A3);
    assert_eq!(c.max_watts, 150);
    // 5 A at 20 V is 100 W.
    let c = CableVdo::decode(2 << 5, false);
    assert_eq!(c.max_watts, 100);
}

#[test]
fn cable_speed_bits_and_labels() {
    assert_eq!(CableSpeed::from_bits(1), CableSpeed::Usb3Gen1);
    assert_eq!(CableSpeed::from_bits(2), CableSpeed::Usb3Gen2);
    assert_eq!(CableSpeed::from_bits(5), CableSpeed::Usb4Gen480);
    assert_eq!(CableSpeed::from_bits(6), CableSpeed::Reserved);
    assert_eq!(CableSpeed::Usb2.label(), "USB 2.0 (480 Mbps)");
    assert_eq!(CableSpeed::Usb4Gen480.label(), "USB4 Gen 4 (80 Gbps)");
    assert_eq!(CableSpeed::Reserved.label(), "Reserved/Unknown speed");
}

#[test]
fn cable_current_bits_amps_labels() {
    assert_eq!(CableCurrent::from_bits(0), CableCurrent::Reserved);
    assert_eq!(CableCurrent::from_bits(1), CableCurrent::A3);
    assert_eq!(CableCurrent::from_bits(2), CableCurrent::A5);
    assert_eq!(CableCurrent::A3.amps(), 3);
    assert_eq!(CableCurrent::A5.amps(), 5);
    assert_eq!(CableCurrent::Reserved.amps(), 0);
    assert_eq!(CableCurrent::A5.label(), "5A");
    assert_eq!(CableCurrent::Reserved.label(), "unknown current");
}

#[test]
fn vendor_names() {
    assert_eq!(name_for(0x05ac), Some("Apple"));
    assert_eq!(name_for(0x2188), Some("Anker"));
    assert_eq!(name_for(0x291a), Some("Anker"));
    assert_eq!(name_for(0x0b95), Some("ASIX"));
    assert_eq!(name_for(0x1234), None);
}

#[test]
fn vendor_labels_fall_back_to_hex() {
    assert_eq!(label_for(0x05ac), "Apple");
    assert_eq!(label_for(0x1234), "Vendor 0x1234");
    assert_eq!(label_for(0xabcd), "Vendor 0xABCD");
    assert_eq!(label_for(0x000f), "Vendor 0x000F");
}

#[test]
fn hex_parsing() {
    assert_eq!(parse_hex_u32("0x00000001"), Some(1));
    assert_eq!(parse_hex_u32("0X1f"), Some(31));
    assert_eq!(parse_hex_u32("ff"), Some(255));
    assert_eq!(parse_hex_u32("  0x10 \n"), Some(16));
    assert_eq!(parse_hex_u32("+a"), Some(10));
    assert_eq!(parse_hex_u32("ffffffff"), Some(u32::MAX));
    assert_eq!(parse_hex_u32("100000000"), None);
    assert_eq!(parse_hex_u32("0x"), None);
    assert_eq!(parse_hex_u32(""), None);
    assert_eq!(parse_hex_u32("xyz"), None);
    assert_eq!(parse_hex_u32("-1"), None);
}

#[test]
fn hex_attribute() {
    assert_eq!(read_hex_u32(Some("0x05ac")), Some(0x05ac));
    assert_eq!(read_hex_u32(Some("8087")), Some(0x8087));
    assert_eq!(read_hex_u32(Some("none")), None);
    assert_eq!(read_hex_u32(None), None);
}

#[test]
fn values_with_units() {
    assert_eq!(read_mu_int(Some("20000mV")), Some(20000));
    assert_eq!(read_mu_int(Some("3250mA")), Some(3250));
    assert_eq!(read_mu_int(Some("5000")), Some(5000));
    assert_eq!(read_mu_int(Some("-5mA")), Some(-5));
    assert_eq!(read_mu_int(Some("12-3")), None);
    assert_eq!(read_mu_int(Some("mV")), None);
    assert_eq!(read_mu_int(Some("")), None);
    assert_eq!(read_mu_int(None), None);
}

#[test]
fn bracketed_selection() {
    assert_eq!(read_bracketed(Some("[host] device")), Some("host".to_string()));
    assert_eq!(read_bracketed(Some("source [sink]")), Some("sink".to_string()));
    assert_eq!(read_bracketed(Some("plain")), Some("plain".to_string()));
    assert_eq!(read_bracketed(Some("a] [b")), Some("a] [b".to_string()));
    assert_eq!(read_bracketed(Some("[]")), Some("".to_string()));
    assert_eq!(read_bracketed(None), None);
}

#[test]
fn hex_round_trip() {
    for n in [0u32, 1, 0x05ac, 0xff01, 0x1234_abcd, u32::MAX] {
        assert_eq!(parse_hex_u32(&format!("0x{:08x}", n)), Some(n));
        assert_eq!(parse_hex_u32(&format!("0X{:04X}", n)), Some(n));
        assert_eq!(parse_hex_u32(&format!("{:X}", n)), Some(n));
        assert_eq!(parse_hex_u32(&format!("{:x}", n)), Some(n));
    }
}
