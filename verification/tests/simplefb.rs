use hvdevices::framebuffer::{
    framebuffer_checksum, mapping_covers_framebuffer, DmaFramebuffer, FramebufferError,
    FramebufferGeometry, FramebufferSource, GeometryError, MappingRange, MappingRangeError,
    DRM_FORMAT_XRGB8888, FRAMEBUFFER_BYTES_PER_PIXEL,
};
use hvdevices::guest_memory::{DmaMapFlags, GuestMemoryError};
use hvdevices::simplefb::{MinimalPciBackend, PCI_DEVICE_ID, PCI_VENDOR_ID};
use hvdevices::vfio::{BackendError, CONFIG_REGION_INDEX};
use vm_memory::{Bytes, MmapRegion, VolatileMemory};

const READ_WRITE: DmaMapFlags = DmaMapFlags {
    read: true,
    write: true,
};

const FB_GPA: u64 = 0x1000;
const FB_SIZE: u64 = 0x1000;

fn range(iova: u64, size: u64) -> MappingRange {
    MappingRange {
        iova,
        size,
        readable: true,
    }
}

#[test]
fn mapping_containment_boundaries() {
    assert!(mapping_covers_framebuffer(range(FB_GPA, FB_SIZE), FB_GPA, FB_SIZE).unwrap());
    assert!(mapping_covers_framebuffer(range(FB_GPA, 0x2000), FB_GPA, FB_SIZE).unwrap());
    assert!(mapping_covers_framebuffer(range(0, 0x3000), FB_GPA, FB_SIZE).unwrap());
    assert!(mapping_covers_framebuffer(range(0, 0x2000), FB_GPA, FB_SIZE).unwrap());
    assert!(!mapping_covers_framebuffer(range(0x1800, 0x1000), FB_GPA, FB_SIZE).unwrap());
    assert!(!mapping_covers_framebuffer(range(0, 0x1800), FB_GPA, FB_SIZE).unwrap());
}

#[test]
fn mapping_containment_checks_overflow_and_permissions() {
    assert_eq!(
        mapping_covers_framebuffer(range(u64::MAX, 2), 0, 1),
        Err(MappingRangeError::MappingOverflow)
    );
    assert_eq!(
        mapping_covers_framebuffer(range(0, u64::MAX), u64::MAX, 2),
        Err(MappingRangeError::FramebufferOverflow)
    );
    assert!(
        !mapping_covers_framebuffer(
            MappingRange {
                iova: 0,
                size: 0x3000,
                readable: false,
            },
            FB_GPA,
            FB_SIZE,
        )
        .unwrap()
    );
}

#[test]
fn geometry_is_validated() {
    let geometry =
        FramebufferGeometry::new(0x2000, 1024, 768, 4096, DRM_FORMAT_XRGB8888).unwrap();
    assert_eq!(geometry.width, 1024);
    assert_eq!(geometry.height, 768);
    assert_eq!(geometry.stride, 4096);
    assert_eq!(geometry.size, 3_145_728);
    assert_eq!(FRAMEBUFFER_BYTES_PER_PIXEL, 4);

    assert!(matches!(
        FramebufferGeometry::new(0, 10, 10, 39, DRM_FORMAT_XRGB8888),
        Err(GeometryError::InvalidStride { .. })
    ));
    assert_eq!(
        FramebufferGeometry::new(u64::MAX, 1, 1, 4, DRM_FORMAT_XRGB8888),
        Err(GeometryError::AddressOverflow)
    );
}

fn test_memory(start: u64, size: u64) -> MmapRegion<()> {
    let region = MmapRegion::<()>::new(size as usize).unwrap();
    region
        .as_volatile_slice()
        .write_slice(&[0x5a; FB_SIZE as usize], (FB_GPA - start) as usize)
        .unwrap();
    region
}

fn test_framebuffer() -> DmaFramebuffer {
    DmaFramebuffer::new(
        FramebufferGeometry::new(FB_GPA, 1024, 1, 4096, DRM_FORMAT_XRGB8888).unwrap(),
    )
}

#[test]
fn finds_framebuffer_among_multiple_dma_regions() {
    let mut framebuffer = test_framebuffer();
    framebuffer
        .add_mapping(READ_WRITE, 0, 0x1000, Some(MmapRegion::<()>::new(0x1000).unwrap()))
        .unwrap();
    framebuffer
        .add_mapping(READ_WRITE, 0x1000, 0x3000, Some(test_memory(0x1000, 0x3000)))
        .unwrap();

    assert_eq!(framebuffer.mapping_count(), 2);
    assert_eq!(
        framebuffer.read_framebuffer().unwrap(),
        vec![0x5a; FB_SIZE as usize]
    );
}

#[test]
fn partial_unmap_invalidates_the_whole_mapping() {
    let mut framebuffer = test_framebuffer();
    framebuffer
        .add_mapping(READ_WRITE, 0, 0x4000, Some(test_memory(0, 0x4000)))
        .unwrap();
    framebuffer.remove_mapping(false, FB_GPA, FB_SIZE).unwrap();
    assert_eq!(framebuffer.mapping_count(), 0);
    assert!(framebuffer.read_framebuffer().is_none());
}

#[test]
fn pci_identity_and_absent_regions_are_hard_wired() {
    let mut backend = MinimalPciBackend::new(test_framebuffer());

    backend
        .region_write(CONFIG_REGION_INDEX, 0, &[0; 4])
        .unwrap();
    let mut identity = [0; 4];
    backend
        .region_read(CONFIG_REGION_INDEX, 0, &mut identity)
        .unwrap();
    assert_eq!(
        identity,
        [
            PCI_VENDOR_ID.to_le_bytes()[0],
            PCI_VENDOR_ID.to_le_bytes()[1],
            PCI_DEVICE_ID.to_le_bytes()[0],
            PCI_DEVICE_ID.to_le_bytes()[1],
        ]
    );

    backend
        .region_write(CONFIG_REGION_INDEX, 0x10, &[0xff; 0x18])
        .unwrap();
    let mut bars = [0xff; 0x18];
    backend
        .region_read(CONFIG_REGION_INDEX, 0x10, &mut bars)
        .unwrap();
    assert_eq!(bars, [0; 0x18]);

    backend
        .region_write(CONFIG_REGION_INDEX, 0x30, &[0xff; 4])
        .unwrap();
    let mut rom = [0xff; 4];
    backend
        .region_read(CONFIG_REGION_INDEX, 0x30, &mut rom)
        .unwrap();
    assert_eq!(rom, [0; 4]);

    backend
        .region_write(CONFIG_REGION_INDEX, 4, &[7, 0])
        .unwrap();
    let mut command = [0; 2];
    backend
        .region_read(CONFIG_REGION_INDEX, 4, &mut command)
        .unwrap();
    assert_eq!(command, [7, 0]);
}

#[test]
fn each_bad_geometry_has_its_error() {
    assert_eq!(
        FramebufferGeometry::new(0, 0, 1, 4, DRM_FORMAT_XRGB8888),
        Err(GeometryError::Empty)
    );
    assert!(matches!(
        FramebufferGeometry::new(0, 1, 1, 4, 1),
        Err(GeometryError::UnsupportedFormat(1))
    ));
    assert_eq!(
        FramebufferGeometry::new(0, 0x4000_0000, 1, 4, DRM_FORMAT_XRGB8888),
        Err(GeometryError::InvalidStride {
            stride: 4,
            minimum: 0x1_0000_0000
        })
    );
}

#[test]
fn mappings_that_hold_no_framebuffer_are_refused() {
    let mut framebuffer = test_framebuffer();
    assert!(!framebuffer.has_framebuffer_mapping());
    assert!(!framebuffer.is_initialized());
    assert!(framebuffer.config().is_none());
    assert_eq!(
        framebuffer.add_mapping(READ_WRITE, 0, 0, None),
        Err(FramebufferError::Memory(GuestMemoryError::EmptyMapping))
    );
    framebuffer
        .add_mapping(READ_WRITE, 0x1000, 0x1000, Some(test_memory(0x1000, 0x1000)))
        .unwrap();
    assert!(framebuffer.has_framebuffer_mapping());
    assert!(framebuffer.is_initialized());
    assert_eq!(framebuffer.config().unwrap().width, 1024);
    assert_eq!(framebuffer.geometry().size, 0x1000);
    assert_eq!(framebuffer.read_pixels().unwrap().len(), 0x1000);
    framebuffer.clear_mappings();
    assert_eq!(framebuffer.mapping_count(), 0);
    assert!(framebuffer.read_pixels().is_err());
}

#[test]
fn other_regions_are_not_implemented() {
    let mut backend = MinimalPciBackend::new(test_framebuffer());
    let mut data = [0; 4];
    assert_eq!(
        backend.region_read(0, 0, &mut data),
        Err(BackendError::UnimplementedRegion(0))
    );
    assert_eq!(
        backend.region_write(CONFIG_REGION_INDEX, 4095, &[0, 0]),
        Err(BackendError::OutOfRange)
    );
    backend
        .region_write(CONFIG_REGION_INDEX, 4, &[7, 0])
        .unwrap();
    assert_eq!(backend.set_irqs(), Err(BackendError::NoInterrupts));
    backend
        .dma_map(READ_WRITE, 0, 0x4000, Some(test_memory(0, 0x4000)))
        .unwrap();
    assert_eq!(backend.framebuffer.mapping_count(), 1);
    assert_eq!(
        backend.dma_unmap(false, u64::MAX, 1),
        Err(GuestMemoryError::RangeOverflow)
    );
    backend.dma_unmap(false, 0x3fff, 1).unwrap();
    assert_eq!(backend.framebuffer.mapping_count(), 0);
    backend
        .dma_map(READ_WRITE, 0, 0x4000, Some(test_memory(0, 0x4000)))
        .unwrap();
    backend.reset();
    assert_eq!(backend.framebuffer.mapping_count(), 0);
    backend
        .region_read(CONFIG_REGION_INDEX, 4, &mut data)
        .unwrap();
    assert_eq!(data[..2], [7, 0]);
}

#[test]
fn checksums_are_fnv1a() {
    assert_eq!(framebuffer_checksum(&[]), 0xcbf2_9ce4_8422_2325);
    assert_eq!(framebuffer_checksum(b"a"), 0xaf63_dc4c_8601_ec8c);
    assert_eq!(framebuffer_checksum(b"foobar"), 0x8594_4171_f739_67e8);
}
