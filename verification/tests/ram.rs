use hvdevices::ram::{GuestRam, SharedMemory};
use vm_memory::bitmap::AtomicBitmap;
use vm_memory::{
    Bytes, GuestAddress, GuestMemoryAtomic, GuestMemoryMmap, GuestRegionMmap, MmapRegion,
};

fn guest_ram(memory: GuestMemoryMmap<AtomicBitmap>) -> GuestRam {
    GuestRam::new(SharedMemory {
        memory: GuestMemoryAtomic::new(memory),
    })
}

fn memory() -> GuestMemoryMmap<AtomicBitmap> {
    GuestMemoryMmap::from_ranges(&[
        (GuestAddress(0x1000), 0x1000),
        (GuestAddress(0x2000), 0x1000),
        (GuestAddress(0x8000), 0x1000),
    ])
    .unwrap()
}

#[test]
fn copies_cross_adjacent_regions() {
    let mut ram = guest_ram(memory());
    assert_eq!(ram.write_present(0x1ffe, &[1, 2, 3, 4]), Some(4));
    assert_eq!(ram.read_present(0x1ffe, 4), Some((4, vec![1, 2, 3, 4])));
}

#[test]
fn copies_end_where_the_memory_ends() {
    let mem = memory();
    let mut ram = guest_ram(mem.clone());
    assert_eq!(ram.write_present(0x2ffe, &[1, 2, 3, 4]), Some(2));
    assert_eq!(ram.read_present(0x2ffe, 4), Some((2, vec![1, 2, 0, 0])));
    assert_eq!(ram.read_present(0x3000, 1), None);
    assert_eq!(ram.write_present(0x3000, &[1]), None);
    assert_eq!(ram.read_present(u64::MAX, 2), None);
    let mut byte = [0];
    mem.read(&mut byte, GuestAddress(0x2fff)).unwrap();
    assert_eq!(byte, [2]);
}

#[test]
fn an_empty_copy_needs_no_memory() {
    let mut ram = guest_ram(memory());
    assert_eq!(ram.read_present(0x3000, 0), Some((0, Vec::new())));
    assert_eq!(ram.write_present(0x3000, &[]), Some(0));
}

fn region(prot: i32, start: u64) -> GuestRegionMmap<AtomicBitmap> {
    let mapping = MmapRegion::build(None, 0x1000, prot, 0x22).unwrap();
    GuestRegionMmap::new(mapping, GuestAddress(start)).unwrap()
}

#[test]
fn regions_are_left_alone_where_they_are_closed() {
    let regions = vec![
        region(1, 0),
        region(3, 0x1000),
        region(0, 0x2000),
        region(3, 0x4000),
    ];
    let mut ram = guest_ram(GuestMemoryMmap::from_regions(regions).unwrap());
    assert_eq!(ram.write_present(8, &[5]), None);
    assert_eq!(ram.read_present(8, 2), Some((2, vec![0, 0])));
    assert_eq!(ram.write_present(0x1ffe, &[5, 6]), Some(2));
    assert_eq!(ram.write_present(0x1ffe, &[7, 8, 9]), None);
    assert_eq!(ram.read_present(0xfff, 0x1001), {
        let mut bytes = vec![0; 0x1001];
        bytes[0xfff..].copy_from_slice(&[5, 6]);
        Some((0x1001, bytes))
    });
    assert_eq!(ram.read_present(0x1ffe, 3), None);
    assert_eq!(ram.read_present(0x2000, 1), None);
    assert_eq!(ram.write_present(0x4ffe, &[1, 2, 3]), Some(2));
}

#[test]
fn a_replaced_memory_is_found_at_once() {
    let (first, second) = (memory(), memory());
    second.write(&[7], GuestAddress(0x1000)).unwrap();
    let source = GuestMemoryAtomic::new(first);
    let mut ram = GuestRam::new(SharedMemory {
        memory: source.clone(),
    });
    let kept = ram.load();
    assert_eq!(ram.read_present(0x1000, 1), Some((1, vec![0])));
    source.lock().unwrap().replace(second);
    assert_eq!(ram.read_present(0x1000, 1), Some((1, vec![7])));
    assert_eq!(ram.write(&kept, 0x1000, &[4]), Some(1));
    assert_eq!(ram.read(&kept, 0x1000, 1), Some((1, vec![4])));
    assert_eq!(ram.read_present(0x1000, 1), Some((1, vec![7])));
}
