//! Vendor ID to vendor name lookup for common cable, charger, hub and dock
//! vendors; other IDs are shown as hex.
use vstd::prelude::*;
use crate::strings::{hex_padded, owned, push_hex_padded};

verus! {

/// The vendor name for `vid`, where the table knows it.
pub open spec fn spec_name_for(vid: u16) -> Option<Seq<char>> {
    if vid == 0x05ac {
        Some("Apple"@)
    } else if vid == 0x046d {
        Some("Logitech"@)
    } else if vid == 0x05e3 {
        Some("Genesys Logic"@)
    } else if vid == 0x0bda {
        Some("Realtek"@)
    } else if vid == 0x174c {
        Some("ASMedia"@)
    } else if vid == 0x2188 {
        Some("Anker"@)
    } else if vid == 0x291a {
        Some("Anker"@)
    } else if vid == 0x2109 {
        Some("VIA Labs"@)
    } else if vid == 0x152d {
        Some("JMicron"@)
    } else if vid == 0x0781 {
        Some("SanDisk"@)
    } else if vid == 0x0951 {
        Some("Kingston"@)
    } else if vid == 0x1058 {
        Some("Western Digital"@)
    } else if vid == 0x04e8 {
        Some("Samsung"@)
    } else if vid == 0x8087 {
        Some("Intel"@)
    } else if vid == 0x18d1 {
        Some("Google"@)
    } else if vid == 0x413c {
        Some("Dell"@)
    } else if vid == 0x17ef {
        Some("Lenovo"@)
    } else if vid == 0x03f0 {
        Some("HP"@)
    } else if vid == 0x0bb4 {
        Some("HTC"@)
    } else if vid == 0x2c7c {
        Some("Quectel"@)
    } else if vid == 0x1d6b {
        Some("Linux Foundation"@)
    } else if vid == 0x32ac {
        Some("Framework"@)
    } else if vid == 0x0451 {
        Some("Texas Instruments"@)
    } else if vid == 0x0b95 {
        Some("ASIX"@)
    } else {
        None
    }
}

/// Looks up the vendor name for a USB vendor ID.
pub fn name_for(vid: u16) -> (res: Option<&'static str>)
    ensures
        res is Some <==> spec_name_for(vid) is Some,
        res matches Some(n) ==> spec_name_for(vid) == Some(n@),
{
    match vid {
        0x05ac => Some("Apple"),
        0x046d => Some("Logitech"),
        0x05e3 => Some("Genesys Logic"),
        0x0bda => Some("Realtek"),
        0x174c => Some("ASMedia"),
        0x2188 => Some("Anker"),
        0x291a => Some("Anker"),
        0x2109 => Some("VIA Labs"),
        0x152d => Some("JMicron"),
        0x0781 => Some("SanDisk"),
        0x0951 => Some("Kingston"),
        0x1058 => Some("Western Digital"),
        0x04e8 => Some("Samsung"),
        0x8087 => Some("Intel"),
        0x18d1 => Some("Google"),
        0x413c => Some("Dell"),
        0x17ef => Some("Lenovo"),
        0x03f0 => Some("HP"),
        0x0bb4 => Some("HTC"),
        0x2c7c => Some("Quectel"),
        0x1d6b => Some("Linux Foundation"),
        0x32ac => Some("Framework"),
        0x0451 => Some("Texas Instruments"),
        0x0b95 => Some("ASIX"),
        _ => None,
    }
}

/// The text `label_for` gives: the vendor name, else `Vendor 0x` and the ID in
/// four upper-case hex digits.
pub open spec fn spec_label_for(vid: u16) -> Seq<char> {
    match spec_name_for(vid) {
        Some(n) => n,
        None => "Vendor 0x"@ + hex_padded(vid as nat, 4, true),
    }
}

/// A printable vendor label for a USB vendor ID.
pub fn label_for(vid: u16) -> (res: String)
    ensures
        res@ == spec_label_for(vid),
{
    match name_for(vid) {
        Some(name) => owned(name),
        None => {
            let mut s = owned("Vendor 0x");
            push_hex_padded(&mut s, vid as u64, 4, true);
            s
        },
    }
}

} // verus!
