//! Descriptors that the HID devices share.
pub mod keyboard;
pub mod mouse;
pub mod requests;

use vstd::prelude::*;

use crate::bytes::push_le16;

verus! {

pub const DESCRIPTOR_DEVICE: u8 = 0x01;
pub const DESCRIPTOR_CONFIGURATION: u8 = 0x02;
pub const DESCRIPTOR_HID: u8 = 0x21;
pub const DESCRIPTOR_REPORT: u8 = 0x22;

pub const REQUEST_TYPE_STANDARD: u8 = 0x00;
pub const REQUEST_TYPE_CLASS: u8 = 0x20;

/// The device descriptor of a product.
pub open spec fn device_descriptor_bytes(product_id: u16) -> Seq<u8> {
    seq![18u8, DESCRIPTOR_DEVICE, 0x10, 0x01, 0, 0, 0, 8] + crate::bytes::le16_bytes(0x1b36)
        + crate::bytes::le16_bytes(product_id) + seq![0x00u8, 0x01, 0, 0, 0, 1]
}

/// The HID class descriptor of a device whose report descriptor has `report_length` bytes.
pub open spec fn hid_descriptor_bytes(report_length: u16) -> Seq<u8> {
    seq![9u8, DESCRIPTOR_HID, 0x11, 0x01, 0, 1, DESCRIPTOR_REPORT] + crate::bytes::le16_bytes(
        report_length,
    )
}

/// The configuration descriptor with its interface, HID and endpoint descriptors.
pub open spec fn configuration_descriptor_bytes(
    protocol: u8,
    report_length: u16,
    packet_size: u16,
) -> Seq<u8> {
    seq![
        9u8,
        DESCRIPTOR_CONFIGURATION,
        34,
        0,
        1,
        1,
        0,
        0x80,
        50,
        9,
        0x04,
        0,
        0,
        1,
        0x03,
        0x01,
        protocol,
        0,
    ] + hid_descriptor_bytes(report_length) + seq![7u8, 0x05, 0x81, 0x03]
        + crate::bytes::le16_bytes(packet_size) + seq![10u8]
}

pub fn device_descriptor(product_id: u16) -> (r: Vec<u8>)
    ensures
        r@ == device_descriptor_bytes(product_id),
        r@.len() == 18,
{
    let mut d: Vec<u8> = vec![18, DESCRIPTOR_DEVICE, 0x10, 0x01, 0, 0, 0, 8];
    push_le16(&mut d, 0x1b36);
    push_le16(&mut d, product_id);
    d.push(0x00);
    d.push(0x01);
    d.push(0);
    d.push(0);
    d.push(0);
    d.push(1);
    assert(d@ =~= device_descriptor_bytes(product_id));
    d
}

/// Only the low sixteen bits of `report_length` are encoded.
pub fn configuration_descriptor(protocol: u8, report_length: usize, packet_size: u16) -> (r: Vec<u8>)
    ensures
        r@ == configuration_descriptor_bytes(protocol, report_length as u16, packet_size),
        r@.len() == 34,
{
    let mut d: Vec<u8> = vec![
        9,
        DESCRIPTOR_CONFIGURATION,
        34,
        0,
        1,
        1,
        0,
        0x80,
        50,
        9,
        0x04,
        0,
        0,
        1,
        0x03,
        0x01,
        protocol,
        0,
    ];
    let mut hid = hid_descriptor(report_length);
    d.append(&mut hid);
    d.push(7);
    d.push(0x05);
    d.push(0x81);
    d.push(0x03);
    push_le16(&mut d, packet_size);
    d.push(10);
    assert(d@ =~= configuration_descriptor_bytes(protocol, report_length as u16, packet_size));
    d
}

/// Only the low sixteen bits of `report_length` are encoded.
pub fn hid_descriptor(report_length: usize) -> (r: Vec<u8>)
    ensures
        r@ == hid_descriptor_bytes(report_length as u16),
        r@.len() == 9,
{
    let mut d: Vec<u8> = vec![9, DESCRIPTOR_HID, 0x11, 0x01, 0, 1, DESCRIPTOR_REPORT];
    push_le16(&mut d, report_length as u16);
    d
}

/// Whether a setup packet asks for a valid address.
pub open spec fn parsed_as_set_address(packet: Seq<u8>) -> bool {
    &&& packet.len() == 8
    &&& {
        let setup = crate::usb::control::parsed_setup(packet)->0;
        &&& setup.kind() == REQUEST_TYPE_STANDARD
        &&& setup.request == crate::usb::control::REQUEST_SET_ADDRESS
        &&& setup.value <= 127
        &&& setup.length == 0
    }
}

} // verus!
