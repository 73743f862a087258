use hvdevices::guest_memory::{DmaMapFlags, GuestAddress, GuestMemoryMap};
use hvdevices::uhci::{
    checked_io_range, InterruptLine, UhciController, UhciError, CMD_RUN_STOP, FLBASEADD, FRNUM,
    LINK_DEPTH_FIRST, LINK_QUEUE_HEAD, LINK_TERMINATE, MAX_SCHEDULE_ENTRIES, PID_IN, PID_OUT,
    PID_SETUP, PORTSC1, PORT_ALWAYS_ONE, PORT_CONNECTED, PORT_CONNECT_CHANGE, PORT_ENABLED,
    PORT_LOW_SPEED, PORT_RESET, STS_HALTED, STS_HOST_CONTROLLER_ERROR, STS_USBINT,
    TD_CTRL_ACTIVE, TD_CTRL_ACTUAL_LENGTH, TD_CTRL_IOC, TD_CTRL_NAK, TD_CTRL_SPD, USBCMD, USBINTR,
    USBSTS,
};
use hvdevices::usb::hid::device_descriptor;
use vm_memory::MmapRegion;

const READ_WRITE: DmaMapFlags = DmaMapFlags {
    read: true,
    write: true,
};

fn read_u16(controller: &UhciController, offset: u64) -> u16 {
    let mut data = [0; 2];
    controller.read(offset, &mut data).unwrap();
    u16::from_le_bytes(data)
}

fn mapped_memory(size: u64) -> GuestMemoryMap {
    let mut memory = GuestMemoryMap::new();
    let region = MmapRegion::<()>::new(size as usize).unwrap();
    memory
        .map(READ_WRITE, GuestAddress(0), size, Some(region))
        .unwrap();
    memory
}

fn token(pid: u8, address: u8, endpoint: u8, length: usize) -> u32 {
    let encoded_length = length.wrapping_sub(1) as u32 & 0x07ff;
    u32::from(pid)
        | (u32::from(address) << 8)
        | (u32::from(endpoint) << 15)
        | (encoded_length << 21)
}

fn write_td(
    memory: &mut GuestMemoryMap,
    address: u32,
    link: u32,
    control: u32,
    token: u32,
    buffer: u32,
) {
    let mut bytes = [0; 16];
    bytes[0..4].copy_from_slice(&link.to_le_bytes());
    bytes[4..8].copy_from_slice(&control.to_le_bytes());
    bytes[8..12].copy_from_slice(&token.to_le_bytes());
    bytes[12..16].copy_from_slice(&buffer.to_le_bytes());
    memory
        .write(GuestAddress(u64::from(address)), &bytes)
        .unwrap();
}

#[test]
fn reset_values_and_run_stop_are_uhci_compatible() {
    let mut controller = UhciController::new(InterruptLine::new());
    assert_eq!(read_u16(&controller, USBCMD), 0);
    assert_eq!(read_u16(&controller, USBSTS), STS_HALTED);
    assert_eq!(
        read_u16(&controller, PORTSC1),
        PORT_ALWAYS_ONE | PORT_CONNECTED | PORT_CONNECT_CHANGE | PORT_LOW_SPEED
    );

    controller.write(USBCMD, &1u16.to_le_bytes()).unwrap();
    assert_eq!(read_u16(&controller, USBSTS) & STS_HALTED, 0);
    controller.write(USBCMD, &0u16.to_le_bytes()).unwrap();
    assert_ne!(read_u16(&controller, USBSTS) & STS_HALTED, 0);
}

#[test]
fn frame_registers_apply_masks_and_running_rule() {
    let mut controller = UhciController::new(InterruptLine::new());
    controller.write(FRNUM, &0xffffu16.to_le_bytes()).unwrap();
    assert_eq!(read_u16(&controller, FRNUM), 0x07ff);
    controller
        .write(FLBASEADD, &0x1234_5678u32.to_le_bytes())
        .unwrap();
    let mut base = [0; 4];
    controller.read(FLBASEADD, &mut base).unwrap();
    assert_eq!(u32::from_le_bytes(base), 0x1234_5000);

    controller.write(USBCMD, &1u16.to_le_bytes()).unwrap();
    controller.write(FRNUM, &7u16.to_le_bytes()).unwrap();
    assert_eq!(read_u16(&controller, FRNUM), 0x07ff);
}

#[test]
fn port_reset_enables_attached_low_speed_device() {
    let mut controller = UhciController::new(InterruptLine::new());
    controller
        .write(PORTSC1, &PORT_RESET.to_le_bytes())
        .unwrap();
    controller.write(PORTSC1, &0u16.to_le_bytes()).unwrap();
    let port = read_u16(&controller, PORTSC1);
    assert_ne!(port & PORT_CONNECTED, 0);
    assert_ne!(port & PORT_ENABLED, 0);
    assert_ne!(port & PORT_LOW_SPEED, 0);
}

#[test]
fn synthetic_control_schedule_returns_device_descriptor() {
    let mut memory = mapped_memory(0x10000);
    let mut controller = UhciController::new(InterruptLine::new());
    controller
        .write(PORTSC1, &PORT_RESET.to_le_bytes())
        .unwrap();
    controller.write(PORTSC1, &0u16.to_le_bytes()).unwrap();

    memory
        .write_u32(GuestAddress(0x1000), 0x2000 | LINK_QUEUE_HEAD)
        .unwrap();
    memory
        .write_u32(GuestAddress(0x2000), LINK_TERMINATE)
        .unwrap();
    memory.write_u32(GuestAddress(0x2004), 0x2100).unwrap();
    let setup = [0x80, 0x06, 0, 1, 0, 0, 18, 0];
    memory.write(GuestAddress(0x3000), &setup).unwrap();
    write_td(
        &mut memory,
        0x2100,
        0x2140 | LINK_DEPTH_FIRST,
        TD_CTRL_ACTIVE,
        token(PID_SETUP, 0, 0, 8),
        0x3000,
    );
    write_td(
        &mut memory,
        0x2140,
        0x2180 | LINK_DEPTH_FIRST,
        TD_CTRL_ACTIVE | TD_CTRL_SPD,
        token(PID_IN, 0, 0, 18),
        0x3020,
    );
    write_td(
        &mut memory,
        0x2180,
        LINK_TERMINATE,
        TD_CTRL_ACTIVE | TD_CTRL_IOC,
        token(PID_OUT, 0, 0, 0),
        0,
    );

    controller
        .write(FLBASEADD, &0x1000u32.to_le_bytes())
        .unwrap();
    controller
        .write(USBINTR, &(1u16 << 2).to_le_bytes())
        .unwrap();
    controller
        .write(USBCMD, &CMD_RUN_STOP.to_le_bytes())
        .unwrap();
    controller.tick(&mut memory);

    assert_eq!(
        memory.read_vec(GuestAddress(0x3020), 18).unwrap(),
        device_descriptor(0x0100)
    );
    assert_eq!(
        memory.read_u32(GuestAddress(0x2004)).unwrap(),
        LINK_TERMINATE
    );
    assert_ne!(controller.status & STS_USBINT, 0);
    assert_eq!(controller.frame_number, 1);
}

#[test]
fn invalid_or_unmapped_schedule_halts_without_host_access() {
    let mut controller = UhciController::new(InterruptLine::new());
    controller
        .write(FLBASEADD, &0x1000u32.to_le_bytes())
        .unwrap();
    controller
        .write(USBCMD, &CMD_RUN_STOP.to_le_bytes())
        .unwrap();
    controller.tick(&mut GuestMemoryMap::new());
    assert_ne!(controller.status & STS_HALTED, 0);
    assert_ne!(controller.status & STS_HOST_CONTROLLER_ERROR, 0);
    assert!(!controller.is_running());
}

#[test]
fn self_referencing_queue_head_is_bounded() {
    let mut memory = mapped_memory(0x4000);
    memory
        .write_u32(GuestAddress(0x1000), 0x2000 | LINK_QUEUE_HEAD)
        .unwrap();
    memory
        .write_u32(GuestAddress(0x2000), 0x2000 | LINK_QUEUE_HEAD)
        .unwrap();
    memory
        .write_u32(GuestAddress(0x2004), LINK_TERMINATE)
        .unwrap();
    let mut controller = UhciController::new(InterruptLine::new());
    controller
        .write(FLBASEADD, &0x1000u32.to_le_bytes())
        .unwrap();
    controller
        .write(USBCMD, &CMD_RUN_STOP.to_le_bytes())
        .unwrap();
    controller.tick(&mut memory);
    assert_eq!(controller.frame_number, 1);
    assert!(controller.is_running());
}

#[test]
fn interrupt_in_naks_until_a_report_is_available() {
    let mut memory = mapped_memory(0x10000);
    let mut controller = UhciController::new(InterruptLine::new());
    controller
        .write(PORTSC1, &PORT_RESET.to_le_bytes())
        .unwrap();
    controller.write(PORTSC1, &0u16.to_le_bytes()).unwrap();

    memory
        .write_u32(GuestAddress(0x1000), 0x2000 | LINK_QUEUE_HEAD)
        .unwrap();
    memory.write_u32(GuestAddress(0x1004), 0x2200).unwrap();
    memory.write_u32(GuestAddress(0x1008), 0x2200).unwrap();
    memory
        .write_u32(GuestAddress(0x2000), LINK_TERMINATE)
        .unwrap();
    memory.write_u32(GuestAddress(0x2004), 0x2100).unwrap();
    memory
        .write(GuestAddress(0x3000), &[0, 9, 1, 0, 0, 0, 0, 0])
        .unwrap();
    write_td(
        &mut memory,
        0x2100,
        0x2140 | LINK_DEPTH_FIRST,
        TD_CTRL_ACTIVE,
        token(PID_SETUP, 0, 0, 8),
        0x3000,
    );
    write_td(
        &mut memory,
        0x2140,
        LINK_TERMINATE,
        TD_CTRL_ACTIVE,
        token(PID_IN, 0, 0, 0),
        0,
    );
    write_td(
        &mut memory,
        0x2200,
        LINK_TERMINATE,
        TD_CTRL_ACTIVE | TD_CTRL_IOC | TD_CTRL_SPD,
        token(PID_IN, 0, 1, 8),
        0x3040,
    );

    controller
        .write(FLBASEADD, &0x1000u32.to_le_bytes())
        .unwrap();
    controller
        .write(USBINTR, &(1u16 << 2).to_le_bytes())
        .unwrap();
    controller
        .write(USBCMD, &CMD_RUN_STOP.to_le_bytes())
        .unwrap();
    controller.tick(&mut memory);
    controller.tick(&mut memory);
    let nak_control = memory.read_u32(GuestAddress(0x2204)).unwrap();
    assert_ne!(nak_control & TD_CTRL_ACTIVE, 0);
    assert_ne!(nak_control & TD_CTRL_NAK, 0);

    controller.input_key(4, true);
    controller.tick(&mut memory);
    let completed_control = memory.read_u32(GuestAddress(0x2204)).unwrap();
    assert_eq!(completed_control & (TD_CTRL_ACTIVE | TD_CTRL_NAK), 0);
    assert_eq!(completed_control & TD_CTRL_ACTUAL_LENGTH, 7);
    assert_eq!(
        memory.read_vec(GuestAddress(0x3040), 8).unwrap(),
        [0, 0, 4, 0, 0, 0, 0, 0]
    );
    assert_ne!(controller.status & STS_USBINT, 0);
}

#[test]
fn invalid_and_truncated_descriptors_halt_safely() {
    for (size, link) in [(0x2000, 0x3000 | LINK_QUEUE_HEAD), (0x3008, 0x3000)] {
        let mut memory = mapped_memory(size);
        memory.write_u32(GuestAddress(0x1000), link).unwrap();
        let mut controller = UhciController::new(InterruptLine::new());
        controller
            .write(FLBASEADD, &0x1000u32.to_le_bytes())
            .unwrap();
        controller
            .write(USBCMD, &CMD_RUN_STOP.to_le_bytes())
            .unwrap();
        controller.tick(&mut memory);
        assert!(!controller.is_running());
        assert_ne!(controller.status & STS_HOST_CONTROLLER_ERROR, 0);
    }
}

#[test]
fn td_cycles_and_excessive_chains_are_bounded() {
    let mut memory = mapped_memory(0x10000);
    memory.write_u32(GuestAddress(0x1000), 0x2000).unwrap();
    write_td(&mut memory, 0x2000, 0x2010, 0, token(PID_IN, 0, 0, 0), 0);
    write_td(&mut memory, 0x2010, 0x2000, 0, token(PID_IN, 0, 0, 0), 0);
    let mut controller = UhciController::new(InterruptLine::new());
    controller
        .write(FLBASEADD, &0x1000u32.to_le_bytes())
        .unwrap();
    controller
        .write(USBCMD, &CMD_RUN_STOP.to_le_bytes())
        .unwrap();
    controller.tick(&mut memory);
    assert_eq!(controller.frame_number, 1);

    memory.write_u32(GuestAddress(0x1004), 0x4000).unwrap();
    for index in 0..=MAX_SCHEDULE_ENTRIES as usize {
        let address = 0x4000 + (index as u32 * 0x10);
        write_td(
            &mut memory,
            address,
            address + 0x10,
            0,
            token(PID_IN, 0, 0, 0),
            0,
        );
    }
    controller.tick(&mut memory);
    assert_eq!(controller.frame_number, 2);
    assert!(controller.is_running());
}

#[test]
fn dma_unmap_and_overflowing_buffers_stop_schedule_access() {
    let mut memory = mapped_memory(0x4000);
    memory
        .write_u32(GuestAddress(0x1000), LINK_TERMINATE)
        .unwrap();
    let mut controller = UhciController::new(InterruptLine::new());
    controller
        .write(FLBASEADD, &0x1000u32.to_le_bytes())
        .unwrap();
    controller
        .write(USBCMD, &CMD_RUN_STOP.to_le_bytes())
        .unwrap();
    memory
        .unmap(false, GuestAddress(0), 0x4000)
        .unwrap();
    controller.tick(&mut memory);
    assert!(!controller.is_running());

    let mut memory = mapped_memory(0x4000);
    memory.write_u32(GuestAddress(0x1000), 0x2000).unwrap();
    write_td(
        &mut memory,
        0x2000,
        LINK_TERMINATE,
        TD_CTRL_ACTIVE,
        token(PID_OUT, 0, 0, 32),
        0xffff_fff0,
    );
    let mut controller = UhciController::new(InterruptLine::new());
    controller
        .write(FLBASEADD, &0x1000u32.to_le_bytes())
        .unwrap();
    controller
        .write(USBCMD, &CMD_RUN_STOP.to_le_bytes())
        .unwrap();
    controller.tick(&mut memory);
    assert!(!controller.is_running());
}

#[test]
fn registers_have_bounds_and_sizes() {
    let mut controller = UhciController::new(InterruptLine::new());
    let mut data = [0; 4];
    assert_eq!(
        controller.read(0x1e, &mut data),
        Err(UhciError::OutOfRange)
    );
    assert_eq!(checked_io_range(0x1c, 4), Ok((0x1c, 0x20)));
    assert_eq!(checked_io_range(0x1d, 4), Err(UhciError::OutOfRange));
    assert_eq!(
        checked_io_range(u64::MAX, 1),
        Err(UhciError::OutOfRange)
    );
    assert!(controller.write(USBCMD, &[1, 0]).is_ok());
    controller.reset();
    assert!(!controller.is_running());
}

#[test]
fn completion_raises_the_line_once() {
    let mut line = InterruptLine::new();
    line.set_level(true);
    assert!(!line.take_signal());
    line.set_level(false);
    line.install();
    line.set_level(true);
    assert!(line.take_signal());
    assert!(!line.take_signal());
    line.unmask();
    assert!(line.take_signal());
    line.set_level(false);
    line.unmask();
    assert!(!line.take_signal());
}

#[test]
fn a_failed_frame_makes_no_further_access() {
    let mut memory = mapped_memory(0x2000);
    let mut controller = UhciController::new(InterruptLine::new());
    controller
        .write(FLBASEADD, &0x8000u32.to_le_bytes())
        .unwrap();
    controller
        .write(USBCMD, &CMD_RUN_STOP.to_le_bytes())
        .unwrap();
    controller.tick(&mut memory);
    assert!(!controller.is_running());
    assert_eq!(controller.frame_number, 0);
    controller.tick(&mut memory);
    assert_eq!(controller.frame_number, 0);
}
