use hvdevices::guest_memory::{DmaMapFlags, GuestAddress, GuestMemoryError, GuestMemoryMap};
use vm_memory::{Bytes, MmapRegion, VolatileMemory};

const READ_WRITE: DmaMapFlags = DmaMapFlags {
    read: true,
    write: true,
};

fn test_memory(size: usize) -> MmapRegion<()> {
    let region = MmapRegion::<()>::new(size).unwrap();
    region
        .as_volatile_slice()
        .write_slice(&[1, 2, 3, 4], 0x100)
        .unwrap();
    region
}

#[test]
fn validates_and_accesses_mapping_bounds() {
    let mut memory = GuestMemoryMap::new();
    memory
        .map(
            READ_WRITE,
            GuestAddress(0x1000),
            0x1000,
            Some(test_memory(0x1000)),
        )
        .unwrap();

    assert_eq!(memory.read_u32(GuestAddress(0x1100)).unwrap(), 0x0403_0201);
    memory.write_u32(GuestAddress(0x11fc), 0x8877_6655).unwrap();
    assert_eq!(memory.read_u32(GuestAddress(0x11fc)).unwrap(), 0x8877_6655);
    memory.read_u32(GuestAddress(0x1ffe)).unwrap_err();
    memory.read_u32(GuestAddress(u64::MAX - 1)).unwrap_err();
}

#[test]
fn rejects_overlapping_and_missing_file_mappings() {
    let mut memory = GuestMemoryMap::new();
    assert!(memory
        .map(READ_WRITE, GuestAddress(0), 0x1000, None)
        .is_err());
    memory
        .map(
            READ_WRITE,
            GuestAddress(0x1000),
            0x1000,
            Some(test_memory(0x1000)),
        )
        .unwrap();
    assert!(memory
        .map(
            READ_WRITE,
            GuestAddress(0x1800),
            0x1000,
            Some(test_memory(0x1000)),
        )
        .is_err());
}

#[test]
fn a_partial_unmap_removes_the_mapping() {
    let mut memory = GuestMemoryMap::new();
    memory
        .map(READ_WRITE, GuestAddress(0), 0x1000, Some(test_memory(0x1000)))
        .unwrap();
    assert!(memory.contains(GuestAddress(0), 0x1000));
    assert_eq!(
        memory.unmap(false, GuestAddress(0x800), 0x10).unwrap(),
        1
    );
    assert!(!memory.contains(GuestAddress(0), 1));
    assert_eq!(memory.mapping_count(), 0);
}

#[test]
fn each_fault_has_its_error() {
    let mut memory = GuestMemoryMap::new();
    let nothing = DmaMapFlags {
        read: false,
        write: false,
    };
    assert_eq!(
        memory.map(READ_WRITE, GuestAddress(0), 0, None),
        Err(GuestMemoryError::EmptyMapping)
    );
    assert_eq!(
        memory.map(READ_WRITE, GuestAddress(u64::MAX), 2, None),
        Err(GuestMemoryError::RangeOverflow)
    );
    assert_eq!(
        memory.map(READ_WRITE, GuestAddress(0), 0x1000, None),
        Err(GuestMemoryError::NoSharedMemory)
    );
    assert_eq!(
        memory.map(nothing, GuestAddress(0), 0x1000, Some(test_memory(0x1000))),
        Err(GuestMemoryError::NoPermission)
    );
    assert_eq!(
        memory.map(
            READ_WRITE,
            GuestAddress(0),
            0x1000,
            Some(test_memory(0x2000))
        ),
        Err(GuestMemoryError::MappingFailed)
    );
    let read_only = DmaMapFlags {
        read: true,
        write: false,
    };
    memory
        .map(read_only, GuestAddress(0), 0x1000, Some(test_memory(0x1000)))
        .unwrap();
    assert_eq!(
        memory.map(
            READ_WRITE,
            GuestAddress(0xfff),
            0x1000,
            Some(test_memory(0x1000))
        ),
        Err(GuestMemoryError::Overlap)
    );
    assert_eq!(
        memory.write_u16(GuestAddress(0), 1),
        Err(GuestMemoryError::NotWritable)
    );
    assert_eq!(
        memory.read_u16(GuestAddress(0xfff)),
        Err(GuestMemoryError::NotReadable)
    );
    memory.clear();
    assert_eq!(memory.mapping_count(), 0);
}

#[test]
fn written_bytes_are_read_back() {
    let mut memory = GuestMemoryMap::new();
    memory
        .map(
            READ_WRITE,
            GuestAddress(0x4000),
            0x1000,
            Some(test_memory(0x1000)),
        )
        .unwrap();
    memory.write(GuestAddress(0x4010), &[9, 8, 7]).unwrap();
    assert_eq!(memory.read_vec(GuestAddress(0x4010), 3).unwrap(), [9, 8, 7]);
    memory.write_u16(GuestAddress(0x4020), 0xbeef).unwrap();
    assert_eq!(memory.read_u16(GuestAddress(0x4020)).unwrap(), 0xbeef);
    let mut data = [0; 2];
    memory.read(GuestAddress(0x4011), &mut data).unwrap();
    assert_eq!(data, [8, 7]);
}

#[test]
fn a_mapping_allows_no_more_than_its_protection() {
    let only_readable = || MmapRegion::<()>::build(None, 0x1000, 1, 0x22).unwrap();
    let only_writable = || MmapRegion::<()>::build(None, 0x1000, 2, 0x22).unwrap();
    let read = DmaMapFlags {
        read: true,
        write: false,
    };
    let mut memory = GuestMemoryMap::new();
    assert_eq!(
        memory.map(READ_WRITE, GuestAddress(0), 0x1000, Some(only_readable())),
        Err(GuestMemoryError::MappingFailed)
    );
    assert_eq!(
        memory.map(read, GuestAddress(0), 0x1000, Some(only_writable())),
        Err(GuestMemoryError::MappingFailed)
    );
    memory
        .map(read, GuestAddress(0), 0x1000, Some(only_readable()))
        .unwrap();
    assert_eq!(memory.read_u16(GuestAddress(0)), Ok(0));
    assert_eq!(
        memory.write_u16(GuestAddress(0), 1),
        Err(GuestMemoryError::NotWritable)
    );
}
