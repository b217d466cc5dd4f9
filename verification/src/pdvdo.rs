//! USB Power Delivery VDO bit decoders (ID Header, Product VDO, Cable VDO1),
//! for the VDOs that Linux exposes as hex text under
//! `/sys/class/typec/portN-{partner,cable}/identity/`.
use vstd::prelude::*;

verus! {

/// Value of the `width`-bit field of `v` that starts at bit `lo`.
pub open spec fn field(v: u32, lo: nat, width: nat) -> nat {
    (v as nat / vstd::arithmetic::power2::pow2(lo)) % vstd::arithmetic::power2::pow2(width)
}

/// Product type advertised in a PD ID Header.
#[derive(Debug, Clone, Copy, PartialEq, Eq, Structural)]
pub enum ProductType {
    Undefined,
    Hub,
    Peripheral,
    PassiveCable,
    ActiveCable,
    Amc,
    Ama,
    VConnPoweredAccessory,
    AlternateMode,
    Power,
    Other(u8),
}

impl ProductType {
    pub open spec fn spec_label(self) -> Seq<char> {
        match self {
            ProductType::Undefined => "Unknown"@,
            ProductType::Hub => "Hub"@,
            ProductType::Peripheral => "Peripheral"@,
            ProductType::PassiveCable => "Passive cable"@,
            ProductType::ActiveCable => "Active cable"@,
            ProductType::Amc => "Alternate Mode Controller"@,
            ProductType::Ama => "Alternate Mode Adapter"@,
            ProductType::VConnPoweredAccessory => "VConn-powered accessory"@,
            ProductType::AlternateMode => "Alternate-mode device"@,
            ProductType::Power => "Power adapter"@,
            ProductType::Other(_) => "Device"@,
        }
    }

    /// Human-readable name of the product type.
    pub fn label(self) -> (res: &'static str)
        ensures
            res@ == self.spec_label(),
    {
        match self {
            ProductType::Undefined => "Unknown",
            ProductType::Hub => "Hub",
            ProductType::Peripheral => "Peripheral",
            ProductType::PassiveCable => "Passive cable",
            ProductType::ActiveCable => "Active cable",
            ProductType::Amc => "Alternate Mode Controller",
            ProductType::Ama => "Alternate Mode Adapter",
            ProductType::VConnPoweredAccessory => "VConn-powered accessory",
            ProductType::AlternateMode => "Alternate-mode device",
            ProductType::Power => "Power adapter",
            ProductType::Other(_) => "Device",
        }
    }
}

/// UFP product type codes of a PD 3.x ID Header.
pub open spec fn spec_ufp_type(v: u8) -> ProductType {
    if v == 0 {
        ProductType::Undefined
    } else if v == 1 {
        ProductType::Hub
    } else if v == 2 {
        ProductType::Peripheral
    } else if v == 3 {
        ProductType::Power
    } else if v == 5 {
        ProductType::AlternateMode
    } else if v == 6 {
        ProductType::VConnPoweredAccessory
    } else {
        ProductType::Other(v)
    }
}

/// DFP product type codes of a PD 3.x ID Header.
pub open spec fn spec_dfp_type(v: u8) -> ProductType {
    if v == 0 {
        ProductType::Undefined
    } else if v == 1 {
        ProductType::Hub
    } else if v == 2 {
        ProductType::Peripheral
    } else if v == 3 {
        ProductType::Power
    } else {
        ProductType::Other(v)
    }
}

fn ufp_type(v: u8) -> (res: ProductType)
    ensures
        res == spec_ufp_type(v),
{
    match v {
        0 => ProductType::Undefined,
        1 => ProductType::Hub,
        2 => ProductType::Peripheral,
        3 => ProductType::Power,
        5 => ProductType::AlternateMode,
        6 => ProductType::VConnPoweredAccessory,
        x => ProductType::Other(x),
    }
}

fn dfp_type(v: u8) -> (res: ProductType)
    ensures
        res == spec_dfp_type(v),
{
    match v {
        0 => ProductType::Undefined,
        1 => ProductType::Hub,
        2 => ProductType::Peripheral,
        3 => ProductType::Power,
        x => ProductType::Other(x),
    }
}

/// Decoded PD ID Header VDO.
#[derive(Debug, Clone, Copy)]
pub struct IdHeader {
    pub vendor_id: u16,
    pub usb_comm_host: bool,
    pub usb_comm_device: bool,
    pub modal_operation: bool,
    pub ufp_product_type: ProductType,
    pub dfp_product_type: ProductType,
}

impl IdHeader {
    pub open spec fn spec_decode(vdo: u32) -> IdHeader {
        IdHeader {
            usb_comm_host: field(vdo, 31, 1) == 1,
            usb_comm_device: field(vdo, 30, 1) == 1,
            ufp_product_type: spec_ufp_type(field(vdo, 27, 3) as u8),
            modal_operation: field(vdo, 26, 1) == 1,
            dfp_product_type: spec_dfp_type(field(vdo, 23, 3) as u8),
            vendor_id: field(vdo, 0, 16) as u16,
        }
    }

    /// Decodes an ID Header: bit 31 USB host, bit 30 USB device, bits 29:27 UFP
    /// product type, bit 26 modal operation, bits 25:23 DFP product type,
    /// bits 15:0 vendor ID.
    pub fn decode(vdo: u32) -> (res: Self)
        ensures
            res.usb_comm_host == (field(vdo, 31, 1) == 1),
            res.usb_comm_device == (field(vdo, 30, 1) == 1),
            res.ufp_product_type == spec_ufp_type(field(vdo, 27, 3) as u8),
            res.modal_operation == (field(vdo, 26, 1) == 1),
            res.dfp_product_type == spec_dfp_type(field(vdo, 23, 3) as u8),
            res.vendor_id == field(vdo, 0, 16),
            res == Self::spec_decode(vdo),
    {
        proof {
            lemma_fields(vdo);
        }
        IdHeader {
            usb_comm_host: ((vdo >> 31) & 1) == 1,
            usb_comm_device: ((vdo >> 30) & 1) == 1,
            ufp_product_type: ufp_type(((vdo >> 27) & 0b111) as u8),
            modal_operation: ((vdo >> 26) & 1) == 1,
            dfp_product_type: dfp_type(((vdo >> 23) & 0b111) as u8),
            vendor_id: (vdo & 0xffff) as u16,
        }
    }
}

/// The shifts and masks used by the decoders compute `field`.
proof fn lemma_fields(v: u32)
    ensures
        (v >> 31) & 1 == field(v, 31, 1),
        (v >> 30) & 1 == field(v, 30, 1),
        (v >> 27) & 7 == field(v, 27, 3),
        (v >> 26) & 1 == field(v, 26, 1),
        (v >> 23) & 7 == field(v, 23, 3),
        v & 0xffff == field(v, 0, 16),
        (v >> 16) & 0xffff == field(v, 16, 16),
        v & 7 == field(v, 0, 3),
        (v >> 5) & 3 == field(v, 5, 2),
        (v >> 9) & 3 == field(v, 9, 2),
        (v >> 27) & 7 < 8,
        (v >> 23) & 7 < 8,
        v & 7 < 8,
        (v >> 5) & 3 < 4,
        (v >> 9) & 3 < 4,
        v & 0xffff < 0x10000,
        (v >> 16) & 0xffff < 0x10000,
{
    vstd::arithmetic::power2::lemma2_to64();
    vstd::arithmetic::power2::lemma2_to64_rest();
    assert((v >> 31) & 1 == (v / 0x8000_0000) % 2) by (bit_vector);
    assert((v >> 30) & 1 == (v / 0x4000_0000) % 2) by (bit_vector);
    assert((v >> 27) & 7 == (v / 0x0800_0000) % 8) by (bit_vector);
    assert((v >> 26) & 1 == (v / 0x0400_0000) % 2) by (bit_vector);
    assert((v >> 23) & 7 == (v / 0x0080_0000) % 8) by (bit_vector);
    assert(v & 0xffff == (v / 1) % 0x10000) by (bit_vector);
    assert((v >> 16) & 0xffff == (v / 0x10000) % 0x10000) by (bit_vector);
    assert(v & 7 == (v / 1) % 8) by (bit_vector);
    assert((v >> 5) & 3 == (v / 32) % 4) by (bit_vector);
    assert((v >> 9) & 3 == (v / 512) % 4) by (bit_vector);
    assert((v >> 27) & 7 < 8) by (bit_vector);
    assert((v >> 23) & 7 < 8) by (bit_vector);
    assert(v & 7 < 8) by (bit_vector);
    assert((v >> 5) & 3 < 4) by (bit_vector);
    assert((v >> 9) & 3 < 4) by (bit_vector);
    assert(v & 0xffff < 0x10000) by (bit_vector);
    assert((v >> 16) & 0xffff < 0x10000) by (bit_vector);
}

/// Decoded PD Product VDO.
#[derive(Debug, Clone, Copy)]
pub struct ProductVdo {
    pub product_id: u16,
    pub bcd_device: u16,
}

impl ProductVdo {
    pub open spec fn spec_decode(vdo: u32) -> ProductVdo {
        ProductVdo { product_id: field(vdo, 0, 16) as u16, bcd_device: field(vdo, 16, 16) as u16 }
    }

    /// Decodes a Product VDO: bits 15:0 product ID, bits 31:16 bcdDevice.
    pub fn decode(vdo: u32) -> (res: Self)
        ensures
            res.product_id == field(vdo, 0, 16),
            res.bcd_device == field(vdo, 16, 16),
            res == Self::spec_decode(vdo),
    {
        proof {
            lemma_fields(vdo);
        }
        ProductVdo { product_id: (vdo & 0xffff) as u16, bcd_device: ((vdo >> 16) & 0xffff) as u16 }
    }
}

/// Highest USB speed a cable supports.
#[derive(Debug, Clone, Copy, PartialEq, Eq, Structural)]
pub enum CableSpeed {
    Usb2,
    Usb3Gen1,
    Usb3Gen2,
    Usb4Gen3,
    Usb4Gen4,
    Usb4Gen480,
    Reserved,
}

impl CableSpeed {
    pub open spec fn spec_from_bits(v: u8) -> CableSpeed {
        if v == 0 {
            CableSpeed::Usb2
        } else if v == 1 {
            CableSpeed::Usb3Gen1
        } else if v == 2 {
            CableSpeed::Usb3Gen2
        } else if v == 3 {
            CableSpeed::Usb4Gen3
        } else if v == 4 {
            CableSpeed::Usb4Gen4
        } else if v == 5 {
            CableSpeed::Usb4Gen480
        } else {
            CableSpeed::Reserved
        }
    }

    /// Cable VDO1 "USB Highest Speed" code (bits 2:0).
    pub fn from_bits(v: u8) -> (res: Self)
        ensures
            res == Self::spec_from_bits(v),
    {
        match v {
            0 => CableSpeed::Usb2,
            1 => CableSpeed::Usb3Gen1,
            2 => CableSpeed::Usb3Gen2,
            3 => CableSpeed::Usb4Gen3,
            4 => CableSpeed::Usb4Gen4,
            5 => CableSpeed::Usb4Gen480,
            _ => CableSpeed::Reserved,
        }
    }

    pub open spec fn spec_label(self) -> Seq<char> {
        match self {
            CableSpeed::Usb2 => "USB 2.0 (480 Mbps)"@,
            CableSpeed::Usb3Gen1 => "USB 3.2 Gen 1 (5 Gbps)"@,
            CableSpeed::Usb3Gen2 => "USB 3.2 Gen 2 (10 Gbps)"@,
            CableSpeed::Usb4Gen3 => "USB4 Gen 2 (20 Gbps)"@,
            CableSpeed::Usb4Gen4 => "USB4 Gen 3 (40 Gbps)"@,
            CableSpeed::Usb4Gen480 => "USB4 Gen 4 (80 Gbps)"@,
            CableSpeed::Reserved => "Reserved/Unknown speed"@,
        }
    }

    pub fn label(self) -> (res: &'static str)
        ensures
            res@ == self.spec_label(),
    {
        match self {
            CableSpeed::Usb2 => "USB 2.0 (480 Mbps)",
            CableSpeed::Usb3Gen1 => "USB 3.2 Gen 1 (5 Gbps)",
            CableSpeed::Usb3Gen2 => "USB 3.2 Gen 2 (10 Gbps)",
            CableSpeed::Usb4Gen3 => "USB4 Gen 2 (20 Gbps)",
            CableSpeed::Usb4Gen4 => "USB4 Gen 3 (40 Gbps)",
            CableSpeed::Usb4Gen480 => "USB4 Gen 4 (80 Gbps)",
            CableSpeed::Reserved => "Reserved/Unknown speed",
        }
    }
}

/// VBUS current a cable can carry.
#[derive(Debug, Clone, Copy, PartialEq, Eq, Structural)]
pub enum CableCurrent {
    A3,
    A5,
    Reserved,
}

impl CableCurrent {
    pub open spec fn spec_from_bits(v: u8) -> CableCurrent {
        if v == 1 {
            CableCurrent::A3
        } else if v == 2 {
            CableCurrent::A5
        } else {
            CableCurrent::Reserved
        }
    }

    /// Cable VDO1 "VBUS Current Handling Capability" code (bits 6:5).
    pub fn from_bits(v: u8) -> (res: Self)
        ensures
            res == Self::spec_from_bits(v),
    {
        match v {
            1 => CableCurrent::A3,
            2 => CableCurrent::A5,
            _ => CableCurrent::Reserved,
        }
    }

    pub open spec fn spec_amps(self) -> u32 {
        match self {
            CableCurrent::A3 => 3,
            CableCurrent::A5 => 5,
            CableCurrent::Reserved => 0,
        }
    }

    pub fn amps(self) -> (res: u32)
        ensures
            res == self.spec_amps(),
    {
        match self {
            CableCurrent::A3 => 3,
            CableCurrent::A5 => 5,
            CableCurrent::Reserved => 0,
        }
    }

    pub open spec fn spec_label(self) -> Seq<char> {
        match self {
            CableCurrent::A3 => "3A"@,
            CableCurrent::A5 => "5A"@,
            CableCurrent::Reserved => "unknown current"@,
        }
    }

    pub fn label(self) -> (res: &'static str)
        ensures
            res@ == self.spec_label(),
    {
        match self {
            CableCurrent::A3 => "3A",
            CableCurrent::A5 => "5A",
            CableCurrent::Reserved => "unknown current",
        }
    }
}

#[derive(Debug, Clone, Copy, PartialEq, Eq, Structural)]
pub enum CableType {
    Passive,
    Active,
}

/// Decoded cable (SOP') VDO1.
#[derive(Debug, Clone, Copy)]
pub struct CableVdo {
    pub speed: CableSpeed,
    pub current: CableCurrent,
    pub max_volts: u32,
    pub max_watts: u32,
    pub cable_type: CableType,
}

/// Maximum VBUS voltage code (bits 10:9): 20, 30, 40 or 50 V.
pub open spec fn spec_max_volts(code: nat) -> u32 {
    if code == 0 {
        20
    } else if code == 1 {
        30
    } else if code == 2 {
        40
    } else {
        50
    }
}

/// The wattage a cable is rated for: volts times amps, except that a 5 A
/// cable with the EPR voltage code (50 V) is rated 240 W, the top of the
/// 60 W / 100 W / 240 W ratings.
pub open spec fn spec_max_watts(code: nat, current: CableCurrent) -> u32 {
    if code == 3 && current == CableCurrent::A5 {
        240
    } else {
        (spec_max_volts(code) * current.spec_amps()) as u32
    }
}

impl CableVdo {
    pub open spec fn spec_decode(vdo: u32, is_active: bool) -> CableVdo {
        let current = CableCurrent::spec_from_bits(field(vdo, 5, 2) as u8);
        let volts = spec_max_volts(field(vdo, 9, 2));
        CableVdo {
            speed: CableSpeed::spec_from_bits(field(vdo, 0, 3) as u8),
            current,
            max_volts: volts,
            max_watts: spec_max_watts(field(vdo, 9, 2), current),
            cable_type: if is_active {
                CableType::Active
            } else {
                CableType::Passive
            },
        }
    }

    /// Decodes a cable (SOP') VDO1; `is_active` selects active or passive.
    pub fn decode(vdo: u32, is_active: bool) -> (res: Self)
        ensures
            res.speed == CableSpeed::spec_from_bits(field(vdo, 0, 3) as u8),
            res.current == CableCurrent::spec_from_bits(field(vdo, 5, 2) as u8),
            res.max_volts == spec_max_volts(field(vdo, 9, 2)),
            res.max_watts == spec_max_watts(field(vdo, 9, 2), res.current),
            res.cable_type == (if is_active {
                CableType::Active
            } else {
                CableType::Passive
            }),
            res == Self::spec_decode(vdo, is_active),
    {
        proof {
            lemma_fields(vdo);
        }
        let speed = CableSpeed::from_bits((vdo & 0b111) as u8);
        let current = CableCurrent::from_bits(((vdo >> 5) & 0b11) as u8);
        let v_bits = (vdo >> 9) & 0b11;
        let max_volts: u32 = match v_bits {
            0 => 20,
            1 => 30,
            2 => 40,
            3 => 50,
            _ => 20,
        };
        let max_watts = if v_bits == 3 && current == CableCurrent::A5 {
            240
        } else {
            max_volts * current.amps()
        };
        CableVdo {
            speed,
            current,
            max_volts,
            max_watts,
            cable_type: if is_active {
                CableType::Active
            } else {
                CableType::Passive
            },
        }
    }
}

} // verus!
