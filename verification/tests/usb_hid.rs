use hvdevices::guest_memory::{DmaMapFlags, GuestMemoryError};
use hvdevices::input_protocol::InputEvent;
use hvdevices::uhci::{InterruptLine, UhciController, UHCI_IO_BAR_SIZE};
use hvdevices::usb_hid::{apply_event, FrameTimer, IrqAction, VfioUsbHidBackend};
use hvdevices::vfio::{
    BackendError, BAR4_REGION_INDEX, CONFIG_REGION_INDEX, INTX_IRQ_INDEX, IRQ_SET_ACTION_MASK,
    IRQ_SET_ACTION_TRIGGER, IRQ_SET_ACTION_UNMASK, IRQ_SET_DATA_EVENTFD, IRQ_SET_DATA_NONE,
};
use vfio_bindings::bindings::vfio::{VFIO_PCI_BAR0_REGION_INDEX, VFIO_PCI_BAR4_REGION_INDEX};
use vm_memory::MmapRegion;

#[test]
fn input_events_update_controller_state() {
    let mut controller = UhciController::new(InterruptLine::new());
    apply_event(
        &mut controller,
        InputEvent::Key {
            usage: 4,
            pressed: true,
        },
    );
    assert_eq!(
        controller.take_keyboard_report().unwrap(),
        [0, 0, 4, 0, 0, 0, 0, 0]
    );
    apply_event(
        &mut controller,
        InputEvent::Mouse {
            dx: 4,
            dy: -2,
            wheel: 1,
            buttons: 1,
        },
    );
    assert_eq!(controller.take_mouse_report().unwrap(), [1, 4, 254, 1]);
    apply_event(&mut controller, InputEvent::ReleaseAll);
    assert_eq!(controller.take_keyboard_report().unwrap(), [0; 8]);
    assert_eq!(controller.take_mouse_report().unwrap(), [0, 0, 0, 0]);
    assert_eq!(controller.keyboard_leds(), 0);
}

#[test]
fn exposes_only_the_standard_uhci_io_bar() {
    let regions = VfioUsbHidBackend::regions();
    assert_eq!(regions[VFIO_PCI_BAR0_REGION_INDEX as usize].size, 0);
    assert_eq!(
        regions[VFIO_PCI_BAR4_REGION_INDEX as usize].size,
        UHCI_IO_BAR_SIZE
    );
}

#[test]
fn the_line_interrupt_is_set_up_by_its_flags() {
    let mut backend = VfioUsbHidBackend::new();
    assert_eq!(
        backend.set_irqs(
            INTX_IRQ_INDEX,
            IRQ_SET_ACTION_TRIGGER | IRQ_SET_DATA_EVENTFD,
            0,
            1,
            1
        ),
        Ok(IrqAction::Install)
    );
    assert_eq!(
        backend.set_irqs(
            INTX_IRQ_INDEX,
            IRQ_SET_ACTION_MASK | IRQ_SET_DATA_NONE,
            0,
            1,
            0
        ),
        Ok(IrqAction::Mask)
    );
    assert_eq!(
        backend.set_irqs(
            INTX_IRQ_INDEX,
            IRQ_SET_ACTION_UNMASK | IRQ_SET_DATA_NONE,
            0,
            1,
            0
        ),
        Ok(IrqAction::Unmask)
    );
    assert_eq!(
        backend.set_irqs(
            INTX_IRQ_INDEX,
            IRQ_SET_ACTION_TRIGGER | IRQ_SET_DATA_NONE,
            0,
            0,
            0
        ),
        Ok(IrqAction::Disable)
    );
    assert_eq!(
        backend.set_irqs(
            INTX_IRQ_INDEX,
            IRQ_SET_ACTION_TRIGGER | IRQ_SET_DATA_EVENTFD,
            0,
            1,
            0
        ),
        Err(BackendError::UnsupportedIrqSetup)
    );
    assert_eq!(
        backend.set_irqs(INTX_IRQ_INDEX, IRQ_SET_ACTION_MASK, 1, 1, 0),
        Err(BackendError::UnsupportedVector)
    );
}

#[test]
fn regions_lead_to_the_registers_and_the_configuration() {
    let mut backend = VfioUsbHidBackend::new();
    let mut data = [0; 2];
    backend
        .region_read(BAR4_REGION_INDEX, 2, &mut data)
        .unwrap();
    assert_eq!(data, [0x20, 0]);
    backend
        .region_read(CONFIG_REGION_INDEX, 0, &mut data)
        .unwrap();
    assert_eq!(data, [0x36, 0x1b]);
    assert_eq!(
        backend.region_write(1, 0, &[0]),
        Err(BackendError::UnimplementedRegion(1))
    );
    assert_eq!(
        backend.region_read(BAR4_REGION_INDEX, 0x20, &mut data),
        Err(BackendError::OutOfRange)
    );
    backend
        .region_write(BAR4_REGION_INDEX, 0, &[1, 0])
        .unwrap();
    assert!(backend.controller().is_running());
    backend.reset();
    assert!(!backend.controller().is_running());
}

#[test]
fn unmapping_needs_a_range() {
    let mut backend = VfioUsbHidBackend::new();
    let flags = DmaMapFlags {
        read: true,
        write: true,
    };
    backend
        .dma_map(
            flags,
            0x1000,
            0x1000,
            Some(MmapRegion::<()>::new(0x1000).unwrap()),
        )
        .unwrap();
    assert_eq!(backend.memory().mapping_count(), 1);
    assert_eq!(
        backend.dma_unmap(false, u64::MAX, 2),
        Err(GuestMemoryError::RangeOverflow)
    );
    backend.dma_unmap(true, 0, 0).unwrap();
    assert_eq!(backend.memory().mapping_count(), 0);
}

#[test]
fn frames_are_a_millisecond_apart() {
    let mut timer = FrameTimer::new(500);
    assert_eq!(timer.pause(600), 999_900);
    assert_eq!(timer.pause(2_000_000), 0);
    timer.advance(1_000_700);
    assert_eq!(timer.deadline, 2_000_500);
    timer.advance(9_000_000);
    assert_eq!(timer.deadline, 10_000_000);
    assert_eq!(FrameTimer::new(u64::MAX).deadline, u64::MAX);
}
