use hvdevices::usb::hid::mouse::{take_delta, HidMouse, PRODUCT_ID, REPORT_DESCRIPTOR};
use hvdevices::usb::hid::{configuration_descriptor, device_descriptor, hid_descriptor};
use hvdevices::usb::{UsbDevice, UsbPacketResult, UsbPid};

#[test]
fn mouse_descriptor_lengths_and_fields_are_exact() {
    let device = device_descriptor(PRODUCT_ID);
    let config = configuration_descriptor(2, REPORT_DESCRIPTOR.len(), 4);
    let hid = hid_descriptor(REPORT_DESCRIPTOR.len());
    assert_eq!(device.len(), 18);
    assert_eq!(config.len(), 34);
    assert_eq!(config[14..17], [0x03, 0x01, 0x02]);
    assert_eq!(hid.len(), 9);
    assert_eq!(
        u16::from_le_bytes([hid[7], hid[8]]) as usize,
        REPORT_DESCRIPTOR.len()
    );
    assert_eq!(REPORT_DESCRIPTOR.len(), 52);
}

#[test]
fn movement_is_split_without_losing_remainders() {
    let mut mouse = HidMouse::new();
    mouse.update(400, -300, 200, 5);
    assert_eq!(mouse.next_report().unwrap(), [5, 127, 129, 127]);
    assert_eq!(mouse.next_report().unwrap(), [5, 127, 129, 73]);
    assert_eq!(mouse.next_report().unwrap(), [5, 127, 210, 0]);
    assert_eq!(mouse.next_report().unwrap(), [5, 19, 0, 0]);
    assert!(mouse.next_report().is_none());
}

#[test]
fn boot_protocol_omits_wheel_and_release_clears_buttons() {
    let mut mouse = HidMouse::new();
    mouse.protocol = 0;
    mouse.update(1, 2, 3, 1);
    assert_eq!(mouse.next_report().unwrap(), [1, 1, 2]);
    mouse.release_all();
    assert_eq!(mouse.next_report().unwrap(), [0, 0, 0]);
}

#[test]
fn rapid_button_press_and_release_are_both_reported() {
    let mut mouse = HidMouse::new();
    mouse.update(0, 0, 0, 1);
    mouse.update(0, 0, 0, 0);

    assert_eq!(mouse.next_report(), Some(vec![1, 0, 0, 0]));
    assert_eq!(mouse.next_report(), Some(vec![0, 0, 0, 0]));
    assert_eq!(mouse.next_report(), None);
}

#[test]
fn deltas_are_taken_in_signed_bytes() {
    let mut value = -300;
    assert_eq!(take_delta(&mut value), -127);
    assert_eq!(value, -173);
    assert_eq!(take_delta(&mut value), -127);
    assert_eq!(take_delta(&mut value), -46);
    assert_eq!(value, 0);
}

#[test]
fn a_mouse_takes_its_address_at_the_status_stage() {
    let mut mouse = HidMouse::new();
    let packet = [0x00, 0x05, 9, 0, 0, 0, 0, 0];
    assert_eq!(
        mouse.packet(UsbPid::Setup, 0, &packet, 8),
        UsbPacketResult::Success(Vec::new())
    );
    assert_eq!(mouse.address(), 0);
    assert_eq!(
        mouse.packet(UsbPid::In, 0, &[], 0),
        UsbPacketResult::Success(Vec::new())
    );
    assert_eq!(mouse.address(), 9);
}

#[test]
fn no_report_is_sent_that_is_not_needed() {
    for (dx, buttons, wanted) in [
        (0, 0, 0),
        (1, 0, 1),
        (127, 1, 1),
        (128, 1, 2),
        (-127, 0, 1),
        (-128, 0, 2),
        (-1270, 2, 10),
    ] {
        let mut mouse = HidMouse::new();
        mouse.update(dx, 0, 0, buttons);
        let mut sent = 0;
        let mut moved = 0;
        while let Some(report) = mouse.next_report() {
            sent += 1;
            moved += i32::from(report[1] as i8);
        }
        assert_eq!((sent, moved), (wanted, dx));
    }
}
