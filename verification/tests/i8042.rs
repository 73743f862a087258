use std::collections::VecDeque;

use hvdevices::legacy::i8042::{
    I8042Device, InputEvent, IrqLine, CMD_DISABLE_KEYBOARD, CMD_DISABLE_SECONDARY,
    CMD_ENABLE_KEYBOARD, CMD_ENABLE_SECONDARY, CMD_READ_PORT_A, CMD_READ_PORT_B,
    CMD_RESET_CONTROLLER, CMD_TEST_CONTROLLER, CMD_TEST_KEYBOARD, CMD_TEST_SECONDARY,
    CMD_WRITE_KBD_OUTPUT, CMD_WRITE_PORT_A, CMD_WRITE_SECONDARY_OUTPUT, CMD_WRITE_TO_AUX,
    CTR_KBD_DISABLE, CTR_XLATE, MAX_DATA_BUFFER, OFFSET_COMMAND, OFFSET_DATA, OFFSET_PORT_B,
    STATUS_AUX_OUTPUT_BUFFER_FULL, STATUS_OUTPUT_BUFFER_FULL, STATUS_SYSTEM_FLAG,
};
use hvdevices::legacy::keymap::KeyboardMap;

fn make_device() -> I8042Device {
    let mut device = I8042Device::new(false, false);
    device.port_b = 0x20;
    device
}

fn read_port(device: &mut I8042Device, offset: u64) -> u8 {
    let mut data = [0u8];
    device.read(0, offset, &mut data);
    data[0]
}

#[test]
fn test_port_b_read() {
    let mut dev = make_device();
    let mut data = [0u8];
    dev.read(0, OFFSET_PORT_B, &mut data);
    assert_eq!(data[0], 0x20);
}

#[test]
fn test_port_b_write() {
    let mut dev = make_device();
    dev.write(0, OFFSET_PORT_B, &[0x40]);
    let mut data = [0u8];
    dev.read(0, OFFSET_PORT_B, &mut data);
    assert_eq!(data[0], 0x40);
}

#[test]
fn test_status_read() {
    let mut dev = make_device();
    let mut data = [0u8];
    dev.read(0, OFFSET_COMMAND, &mut data);
    assert!(data[0] & STATUS_SYSTEM_FLAG != 0);
}

#[test]
fn test_keyboard_enable_disable() {
    let mut dev = make_device();

    dev.write(0, OFFSET_COMMAND, &[CMD_DISABLE_KEYBOARD]);
    assert!(!dev.keyboard_enabled);
    assert_eq!(dev.port_a & 0x01, 0);
    assert_ne!(dev.ctr & CTR_KBD_DISABLE, 0);

    dev.write(0, OFFSET_COMMAND, &[CMD_ENABLE_KEYBOARD]);
    assert!(dev.keyboard_enabled);
    assert_eq!(dev.port_a & 0x01, 0x01);
    assert_eq!(dev.ctr & CTR_KBD_DISABLE, 0);
}

#[test]
fn test_keyboard_enable_disable_data_port() {
    // Test 0xF5 (DISABLE) and 0xF4 (ENABLE) written directly to data port.
    // These are the commands the Linux atkbd driver sends during init:
    // atkbd_deactivate() sends 0xF5, atkbd_activate() sends 0xF4.
    let mut dev = make_device();

    // 0xF5 = DISABLE typing (atkbd_deactivate)
    dev.write(0, OFFSET_DATA, &[0xF5]);
    assert!(!dev.keyboard_enabled);

    let mut data = [0u8];
    dev.read(0, OFFSET_DATA, &mut data);
    assert_eq!(data[0], 0xFA); // keyboard ACK

    // 0xF4 = ENABLE typing (atkbd_activate)
    dev.write(0, OFFSET_DATA, &[0xF4]);
    assert!(dev.keyboard_enabled);

    dev.read(0, OFFSET_DATA, &mut data);
    assert_eq!(data[0], 0xFA); // keyboard ACK
}

#[test]
fn test_mouse_enable_disable() {
    let mut dev = make_device();

    dev.write(0, OFFSET_COMMAND, &[CMD_DISABLE_SECONDARY]);
    assert!(!dev.mouse_enabled);
    assert_eq!(dev.port_a & 0x10, 0);

    dev.write(0, OFFSET_COMMAND, &[CMD_ENABLE_SECONDARY]);
    assert!(dev.mouse_enabled);
    assert_eq!(dev.port_a & 0x10, 0x10);
}

#[test]
fn test_mouse_port_self_test() {
    let mut dev = make_device();

    dev.write(0, OFFSET_COMMAND, &[CMD_TEST_SECONDARY]);

    let mut data = [0u8];
    dev.read(0, OFFSET_DATA, &mut data);
    assert_eq!(data[0], 0x00);
}

#[test]
fn test_keyboard_port_self_test() {
    let mut dev = make_device();

    dev.write(0, OFFSET_COMMAND, &[CMD_TEST_KEYBOARD]);

    let mut data = [0u8];
    dev.read(0, OFFSET_DATA, &mut data);
    assert_eq!(data[0], 0x00);
}

#[test]
fn test_keyboard_reset() {
    let mut dev = make_device();

    dev.write(0, OFFSET_DATA, &[0xFF]);

    let mut data = [0u8];
    dev.read(0, OFFSET_DATA, &mut data);
    assert_eq!(data[0], 0xFA);
    dev.read(0, OFFSET_DATA, &mut data);
    assert_eq!(data[0], 0xAA);
}

#[test]
fn test_keyboard_scan_code_set_query() {
    let mut dev = make_device();

    dev.write(0, OFFSET_DATA, &[0xF0]);
    dev.write(0, OFFSET_DATA, &[0x00]);

    let mut data = [0u8];
    dev.read(0, OFFSET_DATA, &mut data);
    assert_eq!(data[0], 0xFA);
    dev.read(0, OFFSET_DATA, &mut data);
    assert_eq!(data[0], 0xFA);
    dev.read(0, OFFSET_DATA, &mut data);
    assert_eq!(data[0], 0x02);
}

#[test]
fn test_test_controller() {
    let mut dev = make_device();
    dev.write(0, OFFSET_COMMAND, &[CMD_TEST_CONTROLLER]);

    let mut data = [0u8];
    dev.read(0, OFFSET_DATA, &mut data);
    assert_eq!(data[0], 0x55);
}

#[test]
fn test_read_port_a() {
    let mut dev = make_device();
    dev.ctr = 0xAB;

    dev.write(0, OFFSET_COMMAND, &[CMD_READ_PORT_A]);
    let mut data = [0u8];
    dev.read(0, OFFSET_DATA, &mut data);
    assert_eq!(data[0], 0xAB);
}

#[test]
fn test_read_port_b() {
    let mut dev = make_device();
    dev.port_b = 0x42;

    dev.write(0, OFFSET_COMMAND, &[CMD_READ_PORT_B]);
    let mut data = [0u8];
    dev.read(0, OFFSET_DATA, &mut data);
    assert_eq!(data[0], 0x42);
}

#[test]
fn test_keyboard_scan_codes() {
    let mut dev = make_device();

    // X11 keysym 0x71 ('q') -> PS/2 scan code 0x10
    dev.process_keyboard_event(0x71, true);
    assert_eq!(dev.output_buffer.len(), 1);
    assert_eq!(dev.output_buffer[0], 0x10);

    dev.process_keyboard_event(0x71, false);
    assert_eq!(dev.output_buffer.len(), 2);
    assert_eq!(dev.output_buffer[1], 0x90);
}

#[test]
fn test_exclamation_scan_codes() {
    let mut dev = make_device();

    // X11 keysym 0x21 ('!') uses the physical '1' key. The VNC client
    // sends Shift as a separate keyboard event.
    dev.process_keyboard_event(0x21, true);
    dev.process_keyboard_event(0x21, false);
    assert_eq!(dev.output_buffer, VecDeque::from([0x02, 0x82]));

    let mut dev = make_device();
    dev.ctr &= !CTR_XLATE;
    dev.process_keyboard_event(0x21, true);
    dev.process_keyboard_event(0x21, false);
    assert_eq!(dev.output_buffer, VecDeque::from([0x16, 0xF0, 0x16]));
}

#[test]
fn test_keyboard_uses_set2_when_translation_is_disabled() {
    let mut dev = make_device();
    dev.ctr &= !CTR_XLATE;

    // q: set 2 make 0x15 and break 0xf0, 0x15.
    dev.process_keyboard_event(0x71, true);
    dev.process_keyboard_event(0x71, false);
    assert_eq!(dev.output_buffer, VecDeque::from([0x15, 0xF0, 0x15]));

    // The dedicated cursor keys retain their E0 prefix in set 2.
    dev.process_keyboard_event(0xFF52, true);
    assert_eq!(
        dev.output_buffer,
        VecDeque::from([0x15, 0xF0, 0x15, 0xE0, 0x75])
    );
}

#[test]
fn test_extended_keyboard_scan_codes() {
    let mut dev = make_device();

    // X11 keysym 0xFF53 (Right) uses an E0-prefixed Set 1 scan code.
    dev.process_keyboard_event(0xFF53, true);
    dev.process_keyboard_event(0xFF53, false);

    assert_eq!(
        dev.output_buffer.make_contiguous(),
        &[0xE0, 0x4D, 0xE0, 0xCD]
    );
}

#[test]
fn test_keyboard_disabled() {
    let mut dev = make_device();
    dev.keyboard_enabled = false;

    dev.process_keyboard_event(0x71, true); // X11 keysym 'q'
    assert_eq!(dev.output_buffer.len(), 0);
}

#[test]
fn test_mouse_packet() {
    let mut dev = make_device();
    dev.mouse_reporting_enabled = true;

    dev.process_mouse_event(0x01, 10, -5);

    assert_eq!(dev.output_buffer.len(), 3);
    let packet = dev.output_buffer.make_contiguous();
    assert_eq!(packet[0] & 0x08, 0x08);
    assert_eq!(packet[0] & 0x01, 0x01);
    assert_eq!(packet[1], 10);
    assert_eq!(packet[2], (-5i8) as u8);
    assert!(dev.output_buffer_aux.iter().all(|&aux| aux));
    assert_ne!(dev.status & STATUS_AUX_OUTPUT_BUFFER_FULL, 0);

    let mut data = [0u8];
    for _ in 0..3 {
        dev.read(0, OFFSET_DATA, &mut data);
    }
    assert_eq!(dev.status & STATUS_AUX_OUTPUT_BUFFER_FULL, 0);
}

#[test]
fn test_mouse_large_movement_is_split() {
    let mut dev = make_device();
    dev.mouse_reporting_enabled = true;

    dev.process_mouse_event(0x00, 300, 0);

    assert_eq!(dev.output_buffer.len(), 9);
    let packet = dev.output_buffer.make_contiguous();
    assert_eq!(packet[0] & 0xc0, 0);
    assert_eq!(packet[3] & 0xc0, 0);
    assert_eq!(packet[6] & 0xc0, 0);
    let movement: i16 = packet
        .chunks_exact(3)
        .map(|packet| i16::from(packet[1] as i8))
        .sum();
    assert_eq!(movement, 300);
}

#[test]
fn test_mouse_disabled() {
    let mut dev = make_device();
    dev.mouse_enabled = false;
    dev.mouse_reporting_enabled = true;

    dev.process_mouse_event(0x01, 10, 5);
    assert_eq!(dev.output_buffer.len(), 0);
}

#[test]
fn test_mouse_enable_data_reporting() {
    let mut dev = make_device();

    dev.write(0, OFFSET_COMMAND, &[CMD_WRITE_TO_AUX]);
    dev.write(0, OFFSET_DATA, &[0xF4]);
    assert!(dev.mouse_reporting_enabled);
    assert_eq!(dev.output_buffer, VecDeque::from([0xFA]));
    assert_eq!(dev.output_buffer_aux, VecDeque::from([true]));

    dev.output_buffer.clear();
    dev.output_buffer_aux.clear();
    dev.process_mouse_event(0, 1, 1);
    assert_eq!(dev.output_buffer.len(), 3);
}

#[test]
fn test_mouse_get_status() {
    let mut dev = make_device();

    dev.write(0, OFFSET_COMMAND, &[CMD_WRITE_TO_AUX]);
    dev.write(0, OFFSET_DATA, &[0xE9]);

    assert_eq!(dev.output_buffer, VecDeque::from([0xFA, 0x00, 0x02, 100]));
    assert!(dev.output_buffer_aux.iter().all(|&aux| aux));
}

#[test]
fn test_input_channel() {
    let mut dev = make_device();

    // X11 keysym 0x71 ('q') -> PS/2 scan code 0x10
    dev.input_channel.push_back(InputEvent::Keyboard {
        key: 0x71,
        pressed: true,
    });

    let mut data = [0u8];
    dev.read(0, OFFSET_DATA, &mut data);
    assert_eq!(data[0], 0x10);
}

#[test]
fn test_data_port_empty_read() {
    let mut dev = make_device();
    let mut data = [0u8];
    dev.read(0, OFFSET_DATA, &mut data);
    assert_eq!(data[0], 0xFF);
}

#[test]
fn test_write_keyboard_output() {
    let mut dev = make_device();

    dev.write(0, OFFSET_COMMAND, &[CMD_WRITE_KBD_OUTPUT]);
    dev.write(0, OFFSET_DATA, &[0x55]);

    let mut data = [0u8];
    dev.read(0, OFFSET_DATA, &mut data);
    assert_eq!(data[0], 0x55);
}

#[test]
fn test_write_secondary_output() {
    let mut dev = make_device();

    dev.write(0, OFFSET_COMMAND, &[CMD_WRITE_SECONDARY_OUTPUT]);
    dev.write(0, OFFSET_DATA, &[0xAA]);

    let mut data = [0u8];
    dev.read(0, OFFSET_DATA, &mut data);
    assert_eq!(data[0], 0xAA);
}

#[test]
fn test_output_buffer_full() {
    let mut dev = make_device();
    for _ in 0..MAX_DATA_BUFFER {
        dev.push_output(0x42);
    }
    assert_eq!(dev.output_buffer.len(), MAX_DATA_BUFFER);

    dev.push_output(0xFF);
    assert_eq!(dev.output_buffer.len(), MAX_DATA_BUFFER);
}

#[test]
fn test_mouse_movement_waits_for_buffer_space() {
    let mut dev = make_device();
    dev.mouse_reporting_enabled = true;
    for _ in 0..MAX_DATA_BUFFER {
        dev.push_output(0x42);
    }

    assert!(!dev.process_mouse_event(0, 100, 0));
    assert_eq!(dev.pending_mouse_events.front().unwrap().dx, 100);

    let mut data = [0u8];
    for _ in 0..3 {
        dev.read(0, OFFSET_DATA, &mut data);
    }
    assert!(dev.pending_mouse_events.is_empty());
    assert_eq!(dev.output_buffer.len(), MAX_DATA_BUFFER);
    assert_eq!(
        &dev.output_buffer.make_contiguous()[MAX_DATA_BUFFER - 3..],
        &[0x08, 100, 0]
    );
}

#[test]
fn test_mouse_backlog_preserves_button_transitions() {
    let mut dev = make_device();
    dev.mouse_reporting_enabled = true;
    for _ in 0..MAX_DATA_BUFFER {
        dev.push_output(0x42);
    }

    dev.process_mouse_event(0, 100, 0);
    dev.process_mouse_event(1, 0, 0);
    dev.process_mouse_event(1, -100, 0);
    assert_eq!(dev.pending_mouse_events.len(), 2);

    let mut data = [0u8];
    for _ in 0..MAX_DATA_BUFFER {
        dev.read(0, OFFSET_DATA, &mut data);
    }
    let packets = dev.output_buffer.iter().copied().collect::<Vec<_>>();
    assert_eq!(packets, &[0x08, 100, 0, 0x19, (-100i8) as u8, 0]);
    for _ in 0..packets.len() {
        dev.read(0, OFFSET_DATA, &mut data);
    }
    assert!(dev.pending_mouse_events.is_empty());
}

#[test]
fn power_on_values_are_read_back() {
    let mut dev = I8042Device::new(true, false);
    assert!(dev.keyboard_irq());
    assert!(!dev.mouse_irq());
    assert_eq!(read_port(&mut dev, OFFSET_PORT_B), 0x23);
    assert_eq!(read_port(&mut dev, OFFSET_COMMAND), 0x14);
    assert_eq!(read_port(&mut dev, 2), 0);
    assert_eq!(read_port(&mut dev, 3), 0);
}

#[test]
fn wide_accesses_are_ignored() {
    let mut dev = make_device();
    dev.push_output(0x11);
    let mut data = [0xee; 2];
    dev.read(0, OFFSET_DATA, &mut data);
    assert_eq!(data, [0xee; 2]);
    dev.write(0, OFFSET_PORT_B, &[1, 2]);
    assert_eq!(dev.port_b, 0x20);
    assert_eq!(dev.output_buffer.len(), 1);
}

#[test]
fn status_tells_what_is_read_next() {
    let mut dev = make_device();
    dev.push_output(0x11);
    dev.push_aux_output(0x22);
    let status = read_port(&mut dev, OFFSET_COMMAND);
    assert_ne!(status & STATUS_OUTPUT_BUFFER_FULL, 0);
    assert_eq!(status & STATUS_AUX_OUTPUT_BUFFER_FULL, 0);
    assert_eq!(read_port(&mut dev, OFFSET_DATA), 0x11);
    let status = read_port(&mut dev, OFFSET_COMMAND);
    assert_ne!(status & STATUS_OUTPUT_BUFFER_FULL, 0);
    assert_ne!(status & STATUS_AUX_OUTPUT_BUFFER_FULL, 0);
    assert_eq!(read_port(&mut dev, OFFSET_DATA), 0x22);
    let status = read_port(&mut dev, OFFSET_COMMAND);
    assert_eq!(
        status & (STATUS_OUTPUT_BUFFER_FULL | STATUS_AUX_OUTPUT_BUFFER_FULL),
        0
    );
}

#[test]
fn interrupts_follow_the_source_of_the_next_byte() {
    let mut dev = I8042Device::new(true, true);
    dev.push_output(0x11);
    dev.push_aux_output(0x22);
    assert_eq!(dev.take_interrupts(), vec![IrqLine::Keyboard]);
    assert_eq!(read_port(&mut dev, OFFSET_DATA), 0x11);
    assert_eq!(dev.take_interrupts(), vec![IrqLine::Mouse]);
    assert_eq!(read_port(&mut dev, OFFSET_DATA), 0x22);
    assert!(dev.take_interrupts().is_empty());

    dev.write(0, OFFSET_COMMAND, &[CMD_WRITE_PORT_A]);
    dev.write(0, OFFSET_DATA, &[0x00]);
    dev.push_output(0x33);
    assert!(dev.take_interrupts().is_empty());
}

#[test]
fn a_repeated_key_is_ignored() {
    let mut dev = make_device();
    assert!(dev.process_keyboard_event(0x71, true));
    assert!(!dev.process_keyboard_event(0x71, true));
    assert_eq!(dev.output_buffer.len(), 1);
    assert!(!dev.process_keyboard_event(0x0100_0000, true));
}

#[test]
fn reset_is_requested_once() {
    let mut dev = make_device();
    assert!(!dev.take_reset());
    dev.write(0, OFFSET_COMMAND, &[CMD_RESET_CONTROLLER]);
    assert!(dev.take_reset());
    assert!(!dev.take_reset());
}

#[test]
fn mouse_parameters_are_kept() {
    let mut dev = make_device();
    for byte in [0xe8, 0x03, 0xf3, 40, 0xe7, 0xe9] {
        dev.write(0, OFFSET_COMMAND, &[CMD_WRITE_TO_AUX]);
        dev.write(0, OFFSET_DATA, &[byte]);
    }
    let bytes: Vec<u8> = dev.output_buffer.iter().copied().collect();
    assert_eq!(
        bytes,
        [0xfa, 0xfa, 0xfa, 0xfa, 0xfa, 0xfa, 0x10, 0x03, 40]
    );
}

#[test]
fn near_full_leaves_no_room_for_a_packet() {
    let mut dev = make_device();
    for _ in 0..MAX_DATA_BUFFER - 4 {
        dev.push_output(0);
    }
    assert!(!dev.output_buffer_near_full());
    dev.push_output(0);
    assert!(dev.output_buffer_near_full());
}

#[test]
fn scan_codes_of_both_sets() {
    assert_eq!(KeyboardMap::scan_codes(0x71, true, true), [0x10]);
    assert_eq!(KeyboardMap::scan_codes(0x71, false, true), [0x90]);
    assert_eq!(KeyboardMap::scan_codes(0x71, true, false), [0x15]);
    assert_eq!(KeyboardMap::scan_codes(0x71, false, false), [0xf0, 0x15]);
    assert_eq!(KeyboardMap::scan_codes(0xff53, false, false), [0xe0, 0xf0, 0x74]);
    assert!(KeyboardMap::scan_codes(0xffff_ffff, true, true).is_empty());
}

#[test]
fn a_key_event_tells_whether_codes_were_added() {
    let mut dev = make_device();
    for _ in 0..MAX_DATA_BUFFER {
        dev.push_output(0);
    }
    assert!(!dev.process_keyboard_event(0x71, true));
    assert_eq!(dev.output_buffer.len(), MAX_DATA_BUFFER);
    assert!(!dev.process_keyboard_event(0x71, true));
    assert_eq!(read_port(&mut dev, OFFSET_DATA), 0);
    assert!(dev.process_keyboard_event(0x71, false));
    assert_eq!(dev.output_buffer.len(), MAX_DATA_BUFFER);
}

#[test]
fn the_status_has_only_its_own_bits() {
    let mut dev = make_device();
    assert_eq!(read_port(&mut dev, OFFSET_COMMAND), 0x14);
    assert!(dev.process_keyboard_event(0x71, true));
    assert_eq!(read_port(&mut dev, OFFSET_COMMAND), 0x15);
    assert_eq!(read_port(&mut dev, OFFSET_COMMAND), 0x15);
    assert_eq!(dev.output_buffer.len(), 1);
    assert_eq!(read_port(&mut dev, OFFSET_DATA), 0x10);
    dev.push_aux_output(0x22);
    assert_eq!(read_port(&mut dev, OFFSET_COMMAND), 0x35);
    assert_eq!(read_port(&mut dev, OFFSET_DATA), 0x22);
    assert_eq!(read_port(&mut dev, OFFSET_COMMAND), 0x14);
}
