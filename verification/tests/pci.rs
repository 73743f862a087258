use hvdevices::pci::{PciConfig, UHCI_BAR_SIZE_MASK};
use hvdevices::simplefb::MinimalPciBackend;
use hvdevices::vfio::{
    checked_range, BackendError, BAR0_REGION_INDEX, BAR4_REGION_INDEX, CONFIG_REGION_INDEX,
    INTX_IRQ_INDEX, IRQ_FLAG_AUTOMASKED, IRQ_FLAG_EVENTFD, IRQ_FLAG_MASKABLE,
    IRQ_SET_ACTION_MASK, IRQ_SET_ACTION_TRIGGER, IRQ_SET_ACTION_UNMASK, IRQ_SET_DATA_EVENTFD,
    IRQ_SET_DATA_NONE, REGION_FLAG_READ, REGION_FLAG_WRITE, REQ_IRQ_INDEX,
};
use vfio_bindings::bindings::vfio;

#[test]
fn identity_class_and_bar_probe_are_stable() {
    let mut config = PciConfig::new();
    let mut data = [0; 4];
    config.read(0, &mut data).unwrap();
    assert_eq!(data, [0x36, 0x1b, 0xfe, 0x00]);
    config.read(8, &mut data).unwrap();
    assert_eq!(data, [1, 0, 3, 0x0c]);

    config.write(0x20, &u32::MAX.to_le_bytes()).unwrap();
    config.read(0x20, &mut data).unwrap();
    assert_eq!(u32::from_le_bytes(data), UHCI_BAR_SIZE_MASK);

    config.write(0x10, &u32::MAX.to_le_bytes()).unwrap();
    config.read(0x10, &mut data).unwrap();
    assert_eq!(data, [0; 4]);
}

#[test]
fn command_and_interrupt_line_remain_writable() {
    let mut config = PciConfig::new();
    config.write(4, &[5, 0]).unwrap();
    config.write(0x3c, &[11]).unwrap();
    let mut command = [0; 2];
    let mut line = [0];
    config.read(4, &mut command).unwrap();
    config.read(0x3c, &mut line).unwrap();
    assert_eq!(command, [5, 0]);
    assert_eq!(line, [11]);
}

#[test]
fn accesses_stay_in_the_configuration_space() {
    let mut config = PciConfig::new();
    let mut data = [0; 4];
    assert_eq!(config.read(4093, &mut data), Err(BackendError::OutOfRange));
    assert_eq!(config.write(4096, &[1]), Err(BackendError::OutOfRange));
    assert_eq!(
        config.read(u64::MAX, &mut data),
        Err(BackendError::OutOfRange)
    );
    assert!(config.read(4092, &mut data).is_ok());
}

#[test]
fn fixed_bytes_survive_and_reset_restores() {
    let mut config = PciConfig::new();
    config.write(0, &[0xff; 64]).unwrap();
    let mut identity = [0; 4];
    config.read(0, &mut identity).unwrap();
    assert_eq!(identity, [0x36, 0x1b, 0xfe, 0x00]);
    config.reset();
    let mut bar = [0; 4];
    config.read(0x20, &mut bar).unwrap();
    assert_eq!(bar, [1, 0, 0, 0]);
}

#[test]
fn ranges_are_checked() {
    assert_eq!(checked_range(2, 2, 4), Ok(2));
    assert_eq!(checked_range(2, 3, 4), Err(BackendError::OutOfRange));
    assert_eq!(checked_range(u64::MAX, 1, 4), Err(BackendError::OutOfRange));
}

#[test]
fn regions_and_interrupts_are_described() {
    let regions = PciConfig::regions();
    assert_eq!(regions[CONFIG_REGION_INDEX as usize].size, 4096);
    assert_eq!(regions[BAR4_REGION_INDEX as usize].size, 0x20);
    assert_eq!(regions[BAR0_REGION_INDEX as usize].flags, 0);
    let irqs = PciConfig::irqs();
    assert_eq!(irqs.len(), 5);
    assert_eq!((irqs[0].flags, irqs[0].count), (7, 1));
    assert_eq!((irqs[1].flags, irqs[1].count), (0, 0));
    assert_eq!(
        MinimalPciBackend::regions()[CONFIG_REGION_INDEX as usize].size,
        4096
    );
    for irq in MinimalPciBackend::irqs() {
        assert_eq!(irq.count, 0);
    }
}

#[test]
fn indices_and_flags_are_those_of_vfio() {
    assert_eq!(BAR0_REGION_INDEX, vfio::VFIO_PCI_BAR0_REGION_INDEX);
    assert_eq!(BAR4_REGION_INDEX, vfio::VFIO_PCI_BAR4_REGION_INDEX);
    assert_eq!(CONFIG_REGION_INDEX, vfio::VFIO_PCI_CONFIG_REGION_INDEX);
    assert_eq!(REGION_FLAG_READ, vfio::VFIO_REGION_INFO_FLAG_READ);
    assert_eq!(REGION_FLAG_WRITE, vfio::VFIO_REGION_INFO_FLAG_WRITE);
    assert_eq!(INTX_IRQ_INDEX, vfio::VFIO_PCI_INTX_IRQ_INDEX);
    assert_eq!(REQ_IRQ_INDEX, vfio::VFIO_PCI_REQ_IRQ_INDEX);
    assert_eq!(IRQ_FLAG_EVENTFD, vfio::VFIO_IRQ_INFO_EVENTFD);
    assert_eq!(IRQ_FLAG_MASKABLE, vfio::VFIO_IRQ_INFO_MASKABLE);
    assert_eq!(IRQ_FLAG_AUTOMASKED, vfio::VFIO_IRQ_INFO_AUTOMASKED);
    assert_eq!(IRQ_SET_DATA_NONE, vfio::VFIO_IRQ_SET_DATA_NONE);
    assert_eq!(IRQ_SET_DATA_EVENTFD, vfio::VFIO_IRQ_SET_DATA_EVENTFD);
    assert_eq!(IRQ_SET_ACTION_MASK, vfio::VFIO_IRQ_SET_ACTION_MASK);
    assert_eq!(IRQ_SET_ACTION_UNMASK, vfio::VFIO_IRQ_SET_ACTION_UNMASK);
    assert_eq!(IRQ_SET_ACTION_TRIGGER, vfio::VFIO_IRQ_SET_ACTION_TRIGGER);
}
