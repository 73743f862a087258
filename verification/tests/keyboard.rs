use hvdevices::usb::control::{
    UsbPacketResult, HID_GET_IDLE, HID_GET_PROTOCOL, HID_GET_REPORT, HID_SET_IDLE,
    HID_SET_PROTOCOL, HID_SET_REPORT, REQUEST_GET_CONFIGURATION, REQUEST_GET_DESCRIPTOR,
    REQUEST_GET_STATUS, REQUEST_SET_ADDRESS, REQUEST_SET_CONFIGURATION,
};
use hvdevices::usb::hid::keyboard::{HidKeyboard, PRODUCT_ID, REPORT_DESCRIPTOR};
use hvdevices::usb::hid::{
    configuration_descriptor, device_descriptor, hid_descriptor, DESCRIPTOR_DEVICE,
};
use hvdevices::usb::{UsbBus, UsbDevice, UsbPid};

fn setup(request_type: u8, request: u8, value: u16, index: u16, length: u16) -> [u8; 8] {
    let mut packet = [0; 8];
    packet[0] = request_type;
    packet[1] = request;
    packet[2..4].copy_from_slice(&value.to_le_bytes());
    packet[4..6].copy_from_slice(&index.to_le_bytes());
    packet[6..8].copy_from_slice(&length.to_le_bytes());
    packet
}

fn setup_stage(keyboard: &mut HidKeyboard, packet: &[u8; 8]) {
    assert_eq!(
        keyboard.packet(UsbPid::Setup, 0, packet, 8),
        UsbPacketResult::Success(Vec::new())
    );
}

fn control_in(keyboard: &mut HidKeyboard, packet: &[u8; 8], length: usize) -> Vec<u8> {
    setup_stage(keyboard, packet);
    let UsbPacketResult::Success(data) = keyboard.packet(UsbPid::In, 0, &[], length) else {
        panic!("control IN data stage failed");
    };
    assert_eq!(
        keyboard.packet(UsbPid::Out, 0, &[], 0),
        UsbPacketResult::Success(Vec::new())
    );
    data
}

#[test]
fn keyboard_descriptor_lengths_and_fields_are_exact() {
    let device = device_descriptor(PRODUCT_ID);
    let config = configuration_descriptor(1, REPORT_DESCRIPTOR.len(), 8);
    let hid = hid_descriptor(REPORT_DESCRIPTOR.len());
    assert_eq!(device.len(), 18);
    assert_eq!(device[1], DESCRIPTOR_DEVICE);
    assert_eq!(config.len(), 34);
    assert_eq!(u16::from_le_bytes([config[2], config[3]]), 34);
    assert_eq!(config[14..17], [0x03, 0x01, 0x01]);
    assert_eq!(hid.len(), 9);
    assert_eq!(
        u16::from_le_bytes([hid[7], hid[8]]) as usize,
        REPORT_DESCRIPTOR.len()
    );
    assert_eq!(REPORT_DESCRIPTOR.len(), 63);
}

#[test]
fn reports_keys_modifiers_releases_and_rollover() {
    let mut keyboard = HidKeyboard::new();
    keyboard.key(0x04, true);
    assert_eq!(keyboard.next_report().unwrap(), [0, 0, 4, 0, 0, 0, 0, 0]);
    keyboard.key(0xe1, true);
    assert_eq!(keyboard.next_report().unwrap(), [2, 0, 4, 0, 0, 0, 0, 0]);
    for usage in 5..=10 {
        keyboard.key(usage, true);
    }
    assert_eq!(keyboard.next_report().unwrap()[2..], [4, 5, 0, 0, 0, 0]);
    while keyboard.reports.len() > 1 {
        keyboard.next_report();
    }
    assert_eq!(keyboard.next_report().unwrap()[2..], [1; 6]);
    keyboard.release_all();
    assert_eq!(keyboard.next_report().unwrap(), [0; 8]);
}

#[test]
fn standard_enumeration_requests_preserve_control_stages() {
    let mut keyboard = HidKeyboard::new();
    let device = control_in(
        &mut keyboard,
        &setup(0x80, REQUEST_GET_DESCRIPTOR, 0x0100, 0, 18),
        18,
    );
    assert_eq!(device, device_descriptor(PRODUCT_ID));

    setup_stage(&mut keyboard, &setup(0x00, REQUEST_SET_ADDRESS, 5, 0, 0));
    assert_eq!(keyboard.address(), 0);
    assert_eq!(
        keyboard.packet(UsbPid::In, 0, &[], 0),
        UsbPacketResult::Success(Vec::new())
    );
    assert_eq!(keyboard.address(), 5);

    setup_stage(
        &mut keyboard,
        &setup(0x00, REQUEST_SET_CONFIGURATION, 1, 0, 0),
    );
    assert_eq!(
        keyboard.packet(UsbPid::In, 0, &[], 0),
        UsbPacketResult::Success(Vec::new())
    );
    assert_eq!(
        control_in(
            &mut keyboard,
            &setup(0x80, REQUEST_GET_CONFIGURATION, 0, 0, 1),
            1,
        ),
        [1]
    );
    assert_eq!(
        control_in(&mut keyboard, &setup(0x80, REQUEST_GET_STATUS, 0, 0, 2), 2,),
        [0, 0]
    );
}

#[test]
fn hid_protocol_idle_report_and_led_requests_work() {
    let mut keyboard = HidKeyboard::new();
    for (request, value) in [(HID_SET_PROTOCOL, 0), (HID_SET_IDLE, 7 << 8)] {
        setup_stage(&mut keyboard, &setup(0x21, request, value, 0, 0));
        assert_eq!(
            keyboard.packet(UsbPid::In, 0, &[], 0),
            UsbPacketResult::Success(Vec::new())
        );
    }
    assert_eq!(
        control_in(&mut keyboard, &setup(0xa1, HID_GET_PROTOCOL, 0, 0, 1), 1,),
        [0]
    );
    assert_eq!(
        control_in(&mut keyboard, &setup(0xa1, HID_GET_IDLE, 0, 0, 1), 1,),
        [7]
    );

    setup_stage(&mut keyboard, &setup(0x21, HID_SET_REPORT, 0x0200, 0, 1));
    assert_eq!(
        keyboard.packet(UsbPid::Out, 0, &[0x07], 1),
        UsbPacketResult::Success(Vec::new())
    );
    assert_eq!(
        keyboard.packet(UsbPid::In, 0, &[], 0),
        UsbPacketResult::Success(Vec::new())
    );
    assert_eq!(keyboard.leds(), 0x07);
    assert_eq!(
        control_in(&mut keyboard, &setup(0xa1, HID_GET_REPORT, 0x0100, 0, 8), 8,),
        [0; 8]
    );
}

#[test]
fn repeated_keys_make_no_report() {
    let mut keyboard = HidKeyboard::new();
    keyboard.key(4, false);
    assert!(keyboard.next_report().is_none());
    keyboard.key(4, true);
    keyboard.key(4, true);
    assert!(keyboard.next_report().is_some());
    assert!(keyboard.next_report().is_none());
    keyboard.key(4, false);
    assert_eq!(keyboard.next_report().unwrap(), [0; 8]);
    keyboard.release_all();
    assert!(keyboard.next_report().is_none());
}

#[test]
fn unknown_requests_stall() {
    let mut keyboard = HidKeyboard::new();
    assert_eq!(
        keyboard.packet(UsbPid::Setup, 0, &setup(0x80, 0x7f, 0, 0, 1), 8),
        UsbPacketResult::Stall
    );
    assert_eq!(
        keyboard.packet(UsbPid::In, 0, &[], 1),
        UsbPacketResult::Stall
    );
    assert_eq!(
        keyboard.packet(UsbPid::In, 1, &[], 8),
        UsbPacketResult::Stall
    );
}

#[test]
fn bus_routes_packets_by_port() {
    let mut bus = UsbBus::new();
    assert_eq!(bus.address(0), Some(0));
    assert_eq!(bus.address(2), None);
    bus.key(4, true);
    bus.mouse(1, 2, 0, 0);
    assert_eq!(
        bus.take_keyboard_report(),
        Some([0, 0, 4, 0, 0, 0, 0, 0])
    );
    assert_eq!(bus.take_mouse_report(), Some(vec![0, 1, 2, 0]));
    bus.release_all();
    assert_eq!(bus.take_keyboard_report(), Some([0; 8]));
    assert_eq!(bus.keyboard_leds(), 0);
    bus.reset_port(0);
    assert_eq!(
        bus.packet(7, UsbPid::In, 0, &[], 8),
        UsbPacketResult::NoDevice
    );
}

#[test]
fn keys_are_reported_in_ascending_order() {
    let mut keyboard = HidKeyboard::new();
    for usage in [0x30, 0x05, 0x20, 0x04] {
        keyboard.key(usage, true);
        keyboard.next_report();
    }
    keyboard.key(0x1f, true);
    assert_eq!(
        keyboard.next_report().unwrap(),
        [0, 0, 0x04, 0x05, 0x1f, 0x20, 0x30, 0]
    );
    keyboard.key(0x05, false);
    assert_eq!(
        keyboard.next_report().unwrap(),
        [0, 0, 0x04, 0x1f, 0x20, 0x30, 0, 0]
    );
}

#[test]
fn each_change_of_the_keys_is_one_report() {
    let mut keyboard = HidKeyboard::new();
    keyboard.key(0x04, true);
    keyboard.key(0x04, true);
    keyboard.key(0xe1, true);
    keyboard.key(0x05, false);
    keyboard.key(0x04, false);
    keyboard.key(0xe1, false);
    keyboard.key(0, true);
    let mut reports = Vec::new();
    while let Some(report) = keyboard.next_report() {
        reports.push(report);
    }
    assert_eq!(
        reports,
        [
            [0, 0, 4, 0, 0, 0, 0, 0],
            [2, 0, 4, 0, 0, 0, 0, 0],
            [2, 0, 0, 0, 0, 0, 0, 0],
            [0; 8],
        ]
    );
}

#[test]
fn chunks_make_up_the_descriptor() {
    let mut keyboard = HidKeyboard::new();
    setup_stage(
        &mut keyboard,
        &setup(0x81, REQUEST_GET_DESCRIPTOR, 0x2200, 0, 255),
    );
    let mut data = Vec::new();
    for room in [8, 0, 16, 8, 30, 64] {
        let UsbPacketResult::Success(chunk) = keyboard.packet(UsbPid::In, 0, &[], room) else {
            panic!("no data");
        };
        assert!(chunk.len() <= room);
        data.extend(chunk);
    }
    assert_eq!(data, REPORT_DESCRIPTOR);
    assert_eq!(
        keyboard.packet(UsbPid::Out, 0, &[], 0),
        UsbPacketResult::Success(Vec::new())
    );
    assert_eq!(
        keyboard.packet(UsbPid::In, 0, &[], 8),
        UsbPacketResult::Stall
    );
}

#[test]
fn packets_are_collected_until_the_status_stage() {
    let mut keyboard = HidKeyboard::new();
    let acknowledged = UsbPacketResult::Success(Vec::new());
    setup_stage(&mut keyboard, &setup(0x21, HID_SET_REPORT, 0x0200, 0, 3));
    assert_eq!(keyboard.packet(UsbPid::Out, 0, &[5], 0), acknowledged);
    assert_eq!(keyboard.packet(UsbPid::Out, 0, &[], 0), acknowledged);
    assert_eq!(keyboard.packet(UsbPid::Out, 0, &[6, 7], 0), acknowledged);
    assert_eq!(keyboard.leds(), 0);
    assert_eq!(keyboard.packet(UsbPid::In, 0, &[], 0), acknowledged);
    assert_eq!(keyboard.leds(), 5);
    assert_eq!(
        keyboard.packet(UsbPid::In, 0, &[], 0),
        UsbPacketResult::Stall
    );
    setup_stage(&mut keyboard, &setup(0x21, HID_SET_REPORT, 0x0200, 0, 1));
    assert_eq!(keyboard.packet(UsbPid::Out, 0, &[2], 0), acknowledged);
    assert_eq!(
        keyboard.packet(UsbPid::Out, 0, &[], 0),
        UsbPacketResult::Stall
    );
    assert_eq!(keyboard.leds(), 5);
}
