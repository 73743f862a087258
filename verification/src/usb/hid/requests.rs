//! What a host brings about by the requests that it sends to the two devices, packet by packet,
//! and what it reads of them.
use vstd::prelude::*;

use crate::usb::control::Answer;
use crate::usb::hid::keyboard::Keyboard;
use crate::usb::hid::mouse::Mouse;
use crate::usb::{Bus, UsbPid};

verus! {

/// The eight bytes of a request with a value and a length.
pub open spec fn request(kind: u8, number: u8, value: u16, length: u16) -> Seq<u8> {
    seq![
        kind,
        number,
        (value % 256) as u8,
        (value / 256) as u8,
        0u8,
        0u8,
        (length % 256) as u8,
        (length / 256) as u8,
    ]
}

/// A request without data to the keyboard: its setup, and its status.
pub open spec fn keyboard_told(keyboard: Keyboard, kind: u8, number: u8, value: u16) -> Keyboard {
    keyboard.after_packet(
        UsbPid::Setup,
        0,
        request(kind, number, value, 0),
        8,
    ).0.after_packet(UsbPid::In, 0, Seq::empty(), 0).0
}

/// A request without data to the mouse.
pub open spec fn mouse_told(mouse: Mouse, kind: u8, number: u8, value: u16) -> Mouse {
    mouse.after_packet(
        UsbPid::Setup,
        0,
        request(kind, number, value, 0),
        8,
    ).0.after_packet(UsbPid::In, 0, Seq::empty(), 0).0
}

/// What the keyboard answers to a request for up to `length` bytes, which one packet can hold.
pub open spec fn keyboard_asked(
    keyboard: Keyboard,
    kind: u8,
    number: u8,
    value: u16,
    length: u16,
) -> Answer {
    keyboard.after_packet(
        UsbPid::Setup,
        0,
        request(kind, number, value, length),
        8,
    ).0.after_packet(UsbPid::In, 0, Seq::empty(), length as nat).1
}

/// What the mouse answers to such a request.
pub open spec fn mouse_asked(mouse: Mouse, kind: u8, number: u8, value: u16, length: u16) -> Answer {
    mouse.after_packet(
        UsbPid::Setup,
        0,
        request(kind, number, value, length),
        8,
    ).0.after_packet(UsbPid::In, 0, Seq::empty(), length as nat).1
}

proof fn lemma_high_byte(value: u16)
    by (bit_vector)
    ensures
        (value >> 8) as u8 == value / 256,
{
}

proof fn lemma_request(kind: u8, number: u8, value: u16, length: u16)
    ensures
        crate::usb::control::parsed_setup(request(kind, number, value, length)) matches Some(setup)
            && setup.request_type == kind && setup.request == number && setup.value == value
            && setup.length == length && (setup.value >> 8) as u8 == value / 256 && setup.reads()
            == (kind >= 128) && setup.kind() == 32 * (kind / 32 % 4),
{
    lemma_high_byte(value);
    crate::bytes::lemma_byte_bits(kind);
}

/// A host gives each device an address, below 128, and a configuration, and sets how often it
/// repeats its reports and which kind of them it sends. Nothing else changes but the request.
pub proof fn a_host_sets_up_its_devices(keyboard: Keyboard, mouse: Mouse, value: u16)
    ensures
        value <= 127 ==> keyboard_told(keyboard, 0, 5, value).address == value && mouse_told(
            mouse,
            0,
            5,
            value,
        ).address == value,
        value <= 1 ==> keyboard_told(keyboard, 0, 9, value).configuration == value && mouse_told(
            mouse,
            0,
            9,
            value,
        ).configuration == value,
        keyboard_told(keyboard, 0x21, 10, value).idle == value / 256,
        mouse_told(mouse, 0x21, 10, value).idle == value / 256,
        value <= 1 ==> keyboard_told(keyboard, 0x21, 11, value).protocol == value && mouse_told(
            mouse,
            0x21,
            11,
            value,
        ).protocol == value,
        value > 127 ==> keyboard_told(keyboard, 0, 5, value).address == keyboard.address,
        value > 127 ==> mouse_told(mouse, 0, 5, value).address == mouse.address,
{
    lemma_request(0, 5, value, 0);
    lemma_request(0, 9, value, 0);
    lemma_request(0x21, 10, value, 0);
    lemma_request(0x21, 11, value, 0);
}

/// The lamps of the keyboard follow the report that the host sends to it: the three lowest bits
/// of its byte.
pub proof fn a_host_switches_the_lamps(keyboard: Keyboard, lamps: u8, value: u16)
    ensures
        ({
            let announced = keyboard.after_packet(UsbPid::Setup, 0, request(0x21, 9, value, 1), 8).0;
            let sent = announced.after_packet(UsbPid::Out, 0, seq![lamps], 0).0;
            let (done, status) = sent.after_packet(UsbPid::In, 0, Seq::empty(), 0);
            &&& status is Success
            &&& done.leds == lamps % 8
            &&& sent.leds == keyboard.leds
            &&& done.keys == keyboard.keys && done.address == keyboard.address
        }),
{
    lemma_request(0x21, 9, value, 1);
    crate::bytes::lemma_byte_bits(lamps);
    assert((Seq::empty() + seq![lamps])[0] == lamps);
}

/// A host reads back what it has set, and the state of the keys.
pub proof fn a_host_reads_the_settings(keyboard: Keyboard, mouse: Mouse)
    ensures
        keyboard_asked(keyboard, 0x80, 8, 0, 1) == Answer::Success(seq![keyboard.configuration]),
        mouse_asked(mouse, 0x80, 8, 0, 1) == Answer::Success(seq![mouse.configuration]),
        keyboard_asked(keyboard, 0xa1, 2, 0, 1) == Answer::Success(seq![keyboard.idle]),
        mouse_asked(mouse, 0xa1, 2, 0, 1) == Answer::Success(seq![mouse.idle]),
        keyboard_asked(keyboard, 0xa1, 3, 0, 1) == Answer::Success(seq![keyboard.protocol]),
        mouse_asked(mouse, 0xa1, 3, 0, 1) == Answer::Success(seq![mouse.protocol]),
        keyboard_asked(keyboard, 0xa1, 1, 0x100, 8) == Answer::Success(keyboard.current_report@),
{
    lemma_request(0x80, 8, 0, 1);
    lemma_request(0xa1, 2, 0, 1);
    lemma_request(0xa1, 3, 0, 1);
    lemma_request(0xa1, 1, 0x100, 8);
    assert(seq![keyboard.configuration].skip(0) =~= seq![keyboard.configuration]);
    assert(seq![mouse.configuration].skip(0) =~= seq![mouse.configuration]);
    assert(seq![keyboard.idle].skip(0) =~= seq![keyboard.idle]);
    assert(seq![mouse.idle].skip(0) =~= seq![mouse.idle]);
    assert(seq![keyboard.protocol].skip(0) =~= seq![keyboard.protocol]);
    assert(seq![mouse.protocol].skip(0) =~= seq![mouse.protocol]);
    assert(keyboard.current_report@.skip(0) =~= keyboard.current_report@);
}

/// Whether a device descriptor is that of a product, with packets of eight bytes and one
/// configuration.
pub open spec fn describes_device(bytes: Seq<u8>, product: int) -> bool {
    &&& bytes.len() == 18
    &&& bytes[0] == 18 && bytes[1] == 1
    &&& bytes[7] == 8
    &&& crate::bytes::number_at(bytes, 8, 2) == 0x1b36
    &&& crate::bytes::number_at(bytes, 10, 2) == product
    &&& bytes[17] == 1
}

/// Whether a configuration descriptor is that of a HID device: its length, its one interface of
/// the class 3 with a boot protocol, the length of its report descriptor, and its one endpoint,
/// from which the host reads packets of a size by interrupt.
pub open spec fn describes_configuration(
    bytes: Seq<u8>,
    protocol: int,
    report_length: int,
    packet_size: int,
) -> bool {
    &&& bytes.len() == 34
    &&& bytes[0] == 9 && bytes[1] == 2
    &&& crate::bytes::number_at(bytes, 2, 2) == bytes.len()
    &&& bytes[4] == 1 && bytes[5] == 1
    &&& bytes[9] == 9 && bytes[10] == 4 && bytes[13] == 1
    &&& bytes[14] == 3 && bytes[15] == 1 && bytes[16] == protocol
    &&& bytes[18] == 9 && bytes[19] == 0x21 && bytes[24] == 0x22
    &&& crate::bytes::number_at(bytes, 25, 2) == report_length
    &&& bytes[27] == 7 && bytes[28] == 5 && bytes[29] == 0x81 && bytes[30] == 3
    &&& crate::bytes::number_at(bytes, 31, 2) == packet_size
}

proof fn lemma_device(product: u16)
    ensures
        describes_device(crate::usb::hid::device_descriptor_bytes(product), product as int),
{
    let bytes = crate::usb::hid::device_descriptor_bytes(product);
    crate::bytes::le_bytes_hold_the_value(0x1b36, 0, 0);
    crate::bytes::le_bytes_hold_the_value(product, 0, 0);
    assert(bytes.subrange(8, 10) =~= crate::bytes::le16_bytes(0x1b36));
    assert(bytes.subrange(10, 12) =~= crate::bytes::le16_bytes(product));
}

proof fn lemma_configuration(protocol: u8, report_length: u16, packet_size: u16)
    ensures
        describes_configuration(
            crate::usb::hid::configuration_descriptor_bytes(protocol, report_length, packet_size),
            protocol as int,
            report_length as int,
            packet_size as int,
        ),
{
    let bytes = crate::usb::hid::configuration_descriptor_bytes(
        protocol,
        report_length,
        packet_size,
    );
    crate::bytes::le_bytes_hold_the_value(34, 0, 0);
    crate::bytes::le_bytes_hold_the_value(report_length, 0, 0);
    crate::bytes::le_bytes_hold_the_value(packet_size, 0, 0);
    assert(bytes.len() == 34);
    assert(bytes.subrange(2, 4) =~= crate::bytes::le16_bytes(34));
    assert(bytes.subrange(25, 27) =~= crate::bytes::le16_bytes(report_length));
    assert(bytes.subrange(31, 33) =~= crate::bytes::le16_bytes(packet_size));
}

/// A host learns from the descriptors what is behind a port: a keyboard with reports of eight
/// bytes, or a mouse with reports of four. The report descriptor has the length that the
/// configuration names.
pub proof fn a_host_learns_what_the_devices_are(keyboard: Keyboard, mouse: Mouse, length: u16)
    requires
        length >= 64,
    ensures
        keyboard_asked(keyboard, 0x80, 6, 0x100, length) matches Answer::Success(bytes)
            && describes_device(bytes, 0x100),
        mouse_asked(mouse, 0x80, 6, 0x100, length) matches Answer::Success(bytes)
            && describes_device(bytes, 0x101),
        keyboard_asked(keyboard, 0x80, 6, 0x200, length) matches Answer::Success(bytes)
            && describes_configuration(bytes, 1, 63, 8),
        mouse_asked(mouse, 0x80, 6, 0x200, length) matches Answer::Success(bytes)
            && describes_configuration(bytes, 2, 52, 4),
        keyboard_asked(keyboard, 0x80, 6, 0x2200, length) matches Answer::Success(bytes)
            && bytes.len() == 63,
        mouse_asked(mouse, 0x80, 6, 0x2200, length) matches Answer::Success(bytes) && bytes.len()
            == 52,
{
    lemma_request(0x80, 6, 0x100, length);
    lemma_request(0x80, 6, 0x200, length);
    lemma_request(0x80, 6, 0x2200, length);
    lemma_device(0x100);
    lemma_device(0x101);
    lemma_configuration(1, 63, 8);
    lemma_configuration(2, 52, 4);
    let (d1, d2) = (
        crate::usb::hid::device_descriptor_bytes(0x100),
        crate::usb::hid::device_descriptor_bytes(0x101),
    );
    let (c1, c2) = (
        crate::usb::hid::configuration_descriptor_bytes(1, 63, 8),
        crate::usb::hid::configuration_descriptor_bytes(2, 52, 4),
    );
    assert(d1.skip(0) =~= d1 && d2.skip(0) =~= d2);
    assert(c1.skip(0) =~= c1 && c2.skip(0) =~= c2);
}

/// A configured device hands its reports to the host at endpoint 1, one for each packet, as they
/// come; without one it answers that there is none. Without a configuration there is no such
/// endpoint.
pub proof fn reports_are_read_at_endpoint_one(keyboard: Keyboard, mouse: Mouse, room: nat)
    requires
        room >= 8,
        keyboard.reports.len() > 0,
        !mouse.quiet(),
    ensures
        ({
            let (typed, keys) = keyboard.after_packet(UsbPid::In, 1, Seq::empty(), room);
            let (moved, motion) = mouse.after_packet(UsbPid::In, 1, Seq::empty(), room);
            &&& keyboard.configuration != 0 ==> keys == Answer::Success(keyboard.reports[0]@)
                && typed.reports == keyboard.reports.skip(1) && typed.keys == keyboard.keys
            &&& keyboard.configuration == 0 ==> keys == Answer::Stall && typed == keyboard
            &&& mouse.configuration != 0 ==> mouse.after_next_report() == (
                moved,
                Some(motion->Success_0),
            ) && motion is Success
            &&& mouse.configuration == 0 ==> motion == Answer::Stall && moved == mouse
        }),
{
    let report = keyboard.reports[0]@;
    assert(report.len() == 8);
}

/// A device without a report says so, and stays as it is.
pub proof fn a_device_at_rest_has_no_report(keyboard: Keyboard, mouse: Mouse, room: nat)
    requires
        keyboard.configuration != 0,
        mouse.configuration != 0,
        keyboard.reports.len() == 0,
        mouse.quiet(),
    ensures
        keyboard.after_packet(UsbPid::In, 1, Seq::empty(), room) == (keyboard, Answer::Nak),
        mouse.after_packet(UsbPid::In, 1, Seq::empty(), room) == (mouse, Answer::Nak),
{
}

/// The reset of a port takes the address and the configuration from the device behind it, and has
/// it send whole reports: from the keyboard at port 0, and from the mouse at port 1. What is
/// pressed stays pressed, and is reported anew. The other device is left alone.
pub proof fn a_reset_reaches_one_device(bus: Bus, port: usize)
    ensures
        ({
            let after = bus.after_reset_port(port);
            &&& port == 0 ==> {
                &&& after.keyboard.address == 0 && after.keyboard.configuration == 0
                &&& after.keyboard.protocol == 1 && after.keyboard.idle == 0
                &&& after.keyboard.keys == bus.keyboard.keys
                &&& after.keyboard.modifiers == bus.keyboard.modifiers
                &&& bus.keyboard.current_report@ != crate::bytes::zeros(8)
                    ==> after.keyboard.reports == seq![bus.keyboard.current_report]
                &&& bus.keyboard.current_report@ == crate::bytes::zeros(8)
                    ==> after.keyboard.reports.len() == 0
                &&& after.mouse == bus.mouse
            }
            &&& port == 1 ==> {
                &&& after.mouse.address == 0 && after.mouse.configuration == 0
                &&& after.mouse.protocol == 1 && after.mouse.idle == 0
                &&& after.mouse.buttons == bus.mouse.buttons
                &&& after.mouse.pending_dx == 0 && after.mouse.pending_dy == 0
                &&& (after.mouse.button_reports.len() == 1) == (bus.mouse.buttons != 0)
                &&& bus.mouse.buttons != 0 ==> after.mouse.button_reports[0] == bus.mouse.buttons
                &&& after.keyboard == bus.keyboard
            }
            &&& port > 1 ==> after == bus
        }),
{
}

} // verus!
