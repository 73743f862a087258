use hvdevices::nvme::controller::{BarRead, BarWrite, DiskRequest, NvmeController};
use hvdevices::nvme::identify::{identify_controller, identify_namespace};
use hvdevices::nvme::prp::{prp_capacity, read_prp, write_prp};
use hvdevices::nvme::{
    parse_sqe, pci_identity, register_bar, Error, MsixCap, NvmeCqe, NvmeQueue, PciBar, PciIdentity,
};
use hvdevices::ram::{GuestRam, SharedMemory};
use vm_memory::bitmap::AtomicBitmap;
use vm_memory::{Bytes, GuestAddress, GuestMemoryAtomic, GuestMemoryMmap};

const SQ: u64 = 0x1_0000;
const CQ: u64 = 0x2_0000;
const IO_SQ: u64 = 0x3_0000;
const IO_CQ: u64 = 0x4_0000;
const DATA: u64 = 0x5_0000;

fn memory() -> GuestMemoryMmap<AtomicBitmap> {
    GuestMemoryMmap::from_ranges(&[(GuestAddress(0), 0x10_0000)]).unwrap()
}

fn shared(memory: GuestMemoryMmap<AtomicBitmap>) -> SharedMemory {
    SharedMemory {
        memory: GuestMemoryAtomic::new(memory),
    }
}

fn bytes_at(mem: &GuestMemoryMmap<AtomicBitmap>, address: u64, length: usize) -> Vec<u8> {
    let mut data = vec![0; length];
    assert_eq!(mem.read(&mut data, GuestAddress(address)).unwrap(), length);
    data
}

fn sqe(opcode: u8, cid: u16, nsid: u32, prp1: u64, prp2: u64, cdw: [u32; 3]) -> [u8; 64] {
    let mut bytes = [0; 64];
    bytes[0] = opcode;
    bytes[2..4].copy_from_slice(&cid.to_le_bytes());
    bytes[8..12].copy_from_slice(&nsid.to_le_bytes());
    bytes[24..32].copy_from_slice(&prp1.to_le_bytes());
    bytes[32..40].copy_from_slice(&prp2.to_le_bytes());
    bytes[40..44].copy_from_slice(&cdw[0].to_le_bytes());
    bytes[44..48].copy_from_slice(&cdw[1].to_le_bytes());
    bytes[48..52].copy_from_slice(&cdw[2].to_le_bytes());
    bytes
}

fn enabled(mem: &GuestMemoryMmap<AtomicBitmap>, readonly: bool) -> NvmeController {
    let mut controller = NvmeController::new(
        "nvme0".to_owned(),
        64 * 512,
        readonly,
        shared(mem.clone()),
        2,
        Some(16),
    );
    let _ = controller.write(0x24, &0x0003_0003u32.to_le_bytes());
    let _ = controller.write(0x28, &SQ.to_le_bytes());
    let _ = controller.write(0x30, &CQ.to_le_bytes());
    let _ = controller.write(0x14, &1u32.to_le_bytes());
    controller
}

fn admin(
    controller: &mut NvmeController,
    mem: &GuestMemoryMmap<AtomicBitmap>,
    command: [u8; 64],
) -> u16 {
    let slot = u64::from(controller.admin_queue.sq_head);
    let done = u64::from(controller.admin_queue.cq_tail);
    mem.write(&command, GuestAddress(SQ + 64 * slot)).unwrap();
    let tail = (slot + 1) % 4;
    assert!(matches!(
        controller.write(0x1000, &(tail as u32).to_le_bytes()),
        BarWrite::Done
    ));
    assert_eq!(u64::from(controller.admin_queue.sq_head), tail);
    let entry = bytes_at(mem, CQ + 16 * done, 16);
    u16::from_le_bytes([entry[14], entry[15]]) >> 1
}

fn with_io_queue(mem: &GuestMemoryMmap<AtomicBitmap>, readonly: bool) -> NvmeController {
    let mut controller = enabled(mem, readonly);
    assert_eq!(
        admin(
            &mut controller,
            mem,
            sqe(5, 1, 0, IO_CQ, 0, [0x0003_0001, 1, 0])
        ),
        0
    );
    assert_eq!(
        admin(
            &mut controller,
            mem,
            sqe(1, 2, 0, IO_SQ, 0, [0x0003_0001, 0x0001_0001, 0])
        ),
        0
    );
    controller
}

fn ring(
    controller: &mut NvmeController,
    mem: &GuestMemoryMmap<AtomicBitmap>,
    commands: &[[u8; 64]],
) -> BarWrite {
    let mut slot = u64::from(controller.io_queues[0].sq_head);
    for command in commands {
        mem.write(command, GuestAddress(IO_SQ + 64 * slot)).unwrap();
        slot = (slot + 1) % 4;
    }
    controller.write(0x1008, &(slot as u16).to_le_bytes())
}

fn io_status(mem: &GuestMemoryMmap<AtomicBitmap>, slot: u64) -> u16 {
    let entry = bytes_at(mem, IO_CQ + 16 * slot, 16);
    u16::from_le_bytes([entry[14], entry[15]]) >> 1
}

#[test]
fn registers_are_read_whole_or_in_parts() {
    let mem = memory();
    let controller = enabled(&mem, false);
    let mut wide = [0; 8];
    assert_eq!(controller.read(0, &mut wide), BarRead::Done);
    assert_eq!(u64::from_le_bytes(wide), 0x0040_0020_0000_01ff);
    let mut half = [0; 4];
    controller.read(4, &mut half);
    assert_eq!(u32::from_le_bytes(half), 0x0040_0020);
    controller.read(8, &mut half);
    assert_eq!(u32::from_le_bytes(half), 0x1400);
    controller.read(0x1c, &mut half);
    assert_eq!(half, [1, 0, 0, 0]);
    controller.read(0x14, &mut half);
    assert_eq!(half, [1, 0, 0, 0]);
    controller.read(0x28, &mut wide);
    assert_eq!(u64::from_le_bytes(wide), SQ);
    let mut two = [0; 2];
    controller.read(0x32, &mut two);
    assert_eq!(two, [2, 0]);
    let mut none = [7; 2];
    controller.read(8, &mut none);
    assert_eq!(none, [7; 2]);
    controller.read(0x20, &mut none);
    assert_eq!(none, [0; 2]);
    assert_eq!(controller.read(0x2010, &mut half), BarRead::MsixTable(0x10));
    assert_eq!(controller.read(0x6000, &mut half), BarRead::MsixPba(0));
    assert_eq!(controller.read(0x1000, &mut half), BarRead::Done);
    assert_eq!(half, [0; 4]);
}

#[test]
fn queue_addresses_are_written_in_halves() {
    let mut controller = NvmeController::new(
        String::new(),
        0,
        false,
        shared(memory()),
        1,
        None,
    );
    let _ = controller.write(0x28, &[0, 0, 0, 0]);
    assert_eq!(controller.admin_queue.sq_addr, None);
    let _ = controller.write(0x2c, &[1, 0, 0, 0]);
    assert_eq!(controller.admin_queue.sq_addr, Some(0x1_0000_0000));
    let _ = controller.write(0x30, &[0, 0x10]);
    assert_eq!(controller.admin_queue.cq_addr, Some(0x1000));
    let _ = controller.write(0x0c, &[0xf0, 0, 0, 0]);
    let _ = controller.write(0x10, &[0x30, 0, 0, 0]);
    assert_eq!(controller.intms, 0xc0);
}

#[test]
fn a_disabled_controller_does_nothing() {
    let mem = memory();
    let mut controller = with_io_queue(&mem, false);
    assert!(controller.io_queues[0].allocated);
    let _ = controller.write(0x14, &[0, 0, 0, 0]);
    assert!(!controller.io_queues[0].allocated);
    assert_eq!(controller.admin_queue.sq_head, 0);
    assert!(matches!(
        controller.write(0x1000, &[1, 0]),
        BarWrite::Done
    ));
    assert_eq!(controller.admin_queue.sq_tail, 0);
}

#[test]
fn identify_pages_reach_the_guest() {
    let mem = memory();
    let mut controller = enabled(&mem, false);
    assert_eq!(
        admin(&mut controller, &mem, sqe(6, 1, 0, DATA, 0, [1, 0, 0])),
        0
    );
    let page = bytes_at(&mem, DATA, 4096);
    assert_eq!(page, identify_controller(64));
    assert_eq!(page[..11], *b"\xf4\x1a\xf4\x1aCLOUDHV");
    assert_eq!(page[0x18..0x24], *b"CLOUDHV-NVME");
    assert_eq!(page[0x118..0x120], (64u64 * 512).to_le_bytes());
    assert_eq!(page[0x200..0x205], [0x66, 0x22, 0xff, 0xff, 1]);
    assert_eq!(
        admin(&mut controller, &mem, sqe(6, 2, 1, DATA, 0, [2, 0, 0])),
        0
    );
    let page = bytes_at(&mem, DATA, 4096);
    assert_eq!(page, identify_namespace(64));
    assert_eq!(page[..8], 64u64.to_le_bytes());
    assert_eq!(page[128..132], [0, 0, 9, 1]);
    assert_eq!(
        admin(&mut controller, &mem, sqe(6, 3, 2, DATA, 0, [2, 0, 0])),
        0xc
    );
    assert_eq!(
        admin(&mut controller, &mem, sqe(6, 4, 0, DATA, 0, [3, 0, 0])),
        0
    );
    assert_eq!(bytes_at(&mem, DATA, 2), [1, 0]);
    assert_eq!(
        admin(&mut controller, &mem, sqe(6, 5, 0, DATA, 0, [9, 0, 0])),
        2
    );
    assert_eq!(
        admin(&mut controller, &mem, sqe(6, 6, 0, 0, 0, [1, 0, 0])),
        2
    );
    assert_eq!(
        admin(
            &mut controller,
            &mem,
            sqe(6, 7, 0, 0x20_0000, 0, [1, 0, 0])
        ),
        0x11
    );
}

#[test]
fn admin_commands_manage_queues() {
    let mem = memory();
    let mut controller = with_io_queue(&mem, false);
    let taken = sqe(1, 3, 0, IO_SQ, 0, [0x0003_0001, 0x0001_0001, 0]);
    assert_eq!(admin(&mut controller, &mem, taken), 2);
    let other = sqe(1, 4, 0, IO_SQ, 0, [0x0003_0002, 0x0001_0001, 0]);
    assert_eq!(admin(&mut controller, &mem, other), 2);
    let missing = sqe(5, 5, 0, IO_CQ, 0, [0x0003_0003, 1, 0]);
    assert_eq!(admin(&mut controller, &mem, missing), 2);
    assert_eq!(
        admin(&mut controller, &mem, sqe(0, 2, 0, 0, 0, [0; 3])),
        2
    );
    assert_eq!(
        admin(&mut controller, &mem, sqe(0, 1, 0, 0, 0, [0; 3])),
        0
    );
    assert_eq!(controller.io_queues[0], NvmeQueue::new());
    for opcode in [2, 8, 9, 10, 12] {
        assert_eq!(
            admin(&mut controller, &mem, sqe(opcode, 9, 0, 0, 0, [0; 3])),
            0
        );
    }
    assert_eq!(
        admin(&mut controller, &mem, sqe(0x7f, 9, 0, 0, 0, [0; 3])),
        1
    );
}

#[test]
fn the_phase_changes_after_each_round() {
    let mem = memory();
    let mut controller = enabled(&mem, false);
    for round in 0..3 {
        for slot in 0..4 {
            admin(&mut controller, &mem, sqe(9, 1, 0, 0, 0, [0; 3]));
            let entry = bytes_at(&mem, CQ + 16 * slot, 16);
            assert_eq!(entry[14] & 1, if round % 2 == 0 { 1 } else { 0 });
            assert_eq!(entry[12..14], [1, 0]);
        }
    }
}

#[test]
fn a_read_is_delivered_to_its_pages() {
    let mem = memory();
    let mut controller = with_io_queue(&mem, false);
    let command = sqe(2, 7, 1, DATA + 0x800, DATA + 0x3000, [3, 0, 7]);
    let BarWrite::Disk(DiskRequest::Read { offset, length }) =
        ring(&mut controller, &mem, &[command])
    else {
        panic!("no read");
    };
    assert_eq!((offset, length), (3 * 512, 8 * 512));
    let data: Vec<u8> = (0..4096u32).map(|i| (i / 16) as u8).collect();
    assert!(controller.disk_done(Some(data.clone())).is_none());
    assert_eq!(bytes_at(&mem, DATA + 0x800, 0x800), data[..0x800]);
    assert_eq!(bytes_at(&mem, DATA + 0x3000, 0x800), data[0x800..]);
    assert_eq!(io_status(&mem, 0), 0);
    let entry = bytes_at(&mem, IO_CQ, 16);
    assert_eq!(entry[10..14], [1, 0, 7, 0]);
}

#[test]
fn commands_of_one_doorbell_follow_each_other() {
    let mem = memory();
    let mut controller = with_io_queue(&mem, false);
    mem.write(&[0xab; 512], GuestAddress(DATA)).unwrap();
    let write = sqe(1, 1, 0, DATA, 0, [63, 0, 0]);
    let unknown = sqe(0x30, 2, 1, DATA, 0, [0; 3]);
    let flush = sqe(0, 3, 1, 0, 0, [0; 3]);
    let BarWrite::Disk(DiskRequest::Write { offset, data }) =
        ring(&mut controller, &mem, &[write, unknown, flush])
    else {
        panic!("no write");
    };
    assert_eq!(offset, 63 * 512);
    assert_eq!(data, [0xab; 512]);
    assert!(matches!(
        controller.disk_done(Some(Vec::new())),
        Some(DiskRequest::Flush)
    ));
    assert!(controller.disk_done(None).is_none());
    assert_eq!(io_status(&mem, 0), 0);
    assert_eq!(io_status(&mem, 1), 1);
    assert_eq!(io_status(&mem, 2), 0x11);
}

#[test]
fn the_end_of_the_disk_is_kept() {
    let mem = memory();
    let mut controller = with_io_queue(&mem, false);
    for (slot, command) in [
        sqe(2, 1, 1, DATA, 0, [63, 0, 1]),
        sqe(1, 2, 1, DATA, 0, [0, 1, 0]),
        sqe(2, 3, 1, DATA, 0, [u32::MAX, u32::MAX, 0xffff]),
    ]
    .into_iter()
    .enumerate()
    {
        assert!(matches!(
            ring(&mut controller, &mem, &[command]),
            BarWrite::Done
        ));
        assert_eq!(io_status(&mem, slot as u64), 2);
    }
    assert!(matches!(
        ring(&mut controller, &mem, &[sqe(2, 4, 5, DATA, 0, [0; 3])]),
        BarWrite::Done
    ));
    assert_eq!(io_status(&mem, 3), 0xc);
}

#[test]
fn a_read_only_disk_is_not_changed() {
    let mem = memory();
    let mut controller = with_io_queue(&mem, true);
    assert!(matches!(
        ring(
            &mut controller,
            &mem,
            &[
                sqe(1, 1, 1, DATA, 0, [0; 3]),
                sqe(0, 2, 1, 0, 0, [0; 3])
            ]
        ),
        BarWrite::Done
    ));
    assert_eq!(io_status(&mem, 0), 2);
    assert_eq!(io_status(&mem, 1), 0);
}

#[test]
fn interrupts_need_every_mask_to_be_open() {
    let mem = memory();
    let mut controller = enabled(&mem, false);
    admin(&mut controller, &mem, sqe(9, 1, 0, 0, 0, [0; 3]));
    assert!(controller.take_interrupts().is_empty());
    controller.set_masks(false, vec![false, true, true]);
    admin(&mut controller, &mem, sqe(9, 1, 0, 0, 0, [0; 3]));
    assert!(controller.take_interrupts().is_empty());
    let _ = controller.write(0x0c, &[1, 0, 0, 0]);
    admin(&mut controller, &mem, sqe(9, 1, 0, 0, 0, [0; 3]));
    assert_eq!(controller.take_interrupts(), [0]);
    assert!(controller.take_interrupts().is_empty());
}

#[test]
fn registers_move_with_their_bar() {
    let mem = memory();
    let mut controller = enabled(&mem, false);
    let mut data = [9; 4];
    assert_eq!(controller.read_bar(0xf000, 8, &mut data), BarRead::Done);
    assert_eq!(data, [0; 4]);
    controller.move_bar(0xf000);
    controller.read_bar(0xf000, 8, &mut data);
    assert_eq!(u32::from_le_bytes(data), 0x1400);
    let _ = controller.write_bar(0xe000, 0x14, &[0, 0, 0, 0]);
    assert!(controller.cc_en);
    let _ = controller.write_bar(0xf000, 0x14, &[0, 0, 0, 0]);
    assert!(!controller.cc_en);
}

#[test]
fn the_capability_follows_the_configuration_space() {
    let mem = memory();
    let mut controller = enabled(&mem, false);
    assert_eq!(controller.msix_cap, MsixCap::new(3));
    controller.write_msix_capability(16, 2, &[0xff, 0x47]);
    assert_eq!(controller.msix_cap.msg_ctl, 0x4002);
    assert_eq!(controller.msix_cap.table_size(), 3);
    controller.write_msix_capability(16, 0, &[0, 0, 0, 0x80]);
    assert_eq!(controller.msix_cap.msg_ctl, 0x8002);
    controller.write_msix_capability(17, 0, &[5, 0x30, 0, 0]);
    assert_eq!(controller.msix_cap.table_offset(), 0x3000);
    controller.write_msix_capability(18, 0, &[0, 0x70, 0, 0]);
    assert_eq!(controller.msix_cap.pba_offset(), 0x7000);
    let mut data = [0; 4];
    assert_eq!(controller.read(0x3000, &mut data), BarRead::MsixTable(0));
}

#[test]
fn transfers_follow_page_lists() {
    let mem = memory();
    let mut ram = GuestRam::new(shared(mem.clone()));
    for (entry, page) in [DATA + 0x1000, DATA + 0x4000, DATA + 0x2000]
        .into_iter()
        .enumerate()
    {
        mem.write(
            &page.to_le_bytes(),
            GuestAddress(0x9000 + 8 * entry as u64),
        )
        .unwrap();
    }
    let data: Vec<u8> = (0..0x3800u32).map(|i| (i / 64) as u8).collect();
    write_prp(&mut ram, DATA, 0x9000, &data).unwrap();
    assert_eq!(bytes_at(&mem, DATA, 0x1000), data[..0x1000]);
    assert_eq!(bytes_at(&mem, DATA + 0x1000, 0x1000), data[0x1000..0x2000]);
    assert_eq!(bytes_at(&mem, DATA + 0x4000, 0x1000), data[0x2000..0x3000]);
    assert_eq!(bytes_at(&mem, DATA + 0x2000, 0x800), data[0x3000..]);
    assert_eq!(read_prp(&mut ram, DATA, 0x9000, 0x3800).unwrap(), data);
    let longer = read_prp(&mut ram, DATA, 0x9000, 0x5000).unwrap();
    assert_eq!(longer[0x4000..], [0; 0x1000]);
}

#[test]
fn transfers_without_pages_are_refused() {
    let mem = memory();
    let mut ram = GuestRam::new(shared(mem.clone()));
    assert_eq!(read_prp(&mut ram, 0, 0, 3).unwrap(), [0; 3]);
    assert_eq!(write_prp(&mut ram, 0, 0, &[1]), Ok(()));
    assert_eq!(
        write_prp(&mut ram, DATA, 0, &[0; 4097]),
        Err(Error::InvalidPrpList)
    );
    assert_eq!(write_prp(&mut ram, DATA + 1, 0, &[3; 4096]), Ok(()));
    assert_eq!(bytes_at(&mem, DATA + 0x1000, 1), [3]);
    assert_eq!(
        read_prp(&mut ram, DATA + 1, 0, 8192),
        Err(Error::InvalidPrpList)
    );
    assert_eq!(
        read_prp(&mut ram, 0x20_0000, 0, 1),
        Err(Error::GuestMemory)
    );
    assert_eq!(prp_capacity(0, 5), 0);
    assert_eq!(prp_capacity(0x1000, 0), 4096);
    assert_eq!(prp_capacity(0x1100, 0), 4096 - 0x100 + 4096);
    assert_eq!(prp_capacity(0x1000, 0x2000), 8192);
    assert_eq!(prp_capacity(0x1000, 0x2001), 4096);
}

#[test]
fn entries_have_fixed_layouts() {
    let command = parse_sqe(&sqe(2, 0x1234, 1, 0x1_0000_0002, 3, [4, 5, 6]));
    assert_eq!(command.opcode(), 2);
    assert_eq!(command.command_id(), 0x1234);
    assert_eq!(command.prp1(), 0x1_0000_0002);
    assert_eq!(command.prp2(), 3);
    assert_eq!((command.cdw10, command.cdw11, command.cdw12), (4, 5, 6));
    assert_eq!(
        NvmeCqe::new(0x1234, true, 2, 3, 4, 5).to_bytes(),
        [5, 0, 0, 0, 0, 0, 0, 0, 4, 0, 3, 0, 0x34, 0x12, 5, 0]
    );
}

#[test]
fn io_completions_go_around_their_ring() {
    let mem = memory();
    let mut controller = with_io_queue(&mem, true);
    for k in 0..9u64 {
        let flush = sqe(0, 0x40 + k as u16, 1, 0, 0, [0; 3]);
        assert!(matches!(
            ring(&mut controller, &mem, &[flush]),
            BarWrite::Done
        ));
        let entry = bytes_at(&mem, IO_CQ + 16 * (k % 4), 16);
        assert_eq!(entry[12], 0x40 + k as u8);
        assert_eq!(entry[14], if (k / 4) % 2 == 0 { 1 } else { 0 });
        assert_eq!(u64::from(controller.io_queues[0].cq_tail), (k + 1) % 4);
    }
}

#[test]
fn answered_requests_drain_an_io_queue() {
    let mem = memory();
    let mut controller = with_io_queue(&mem, false);
    let read = sqe(2, 1, 1, DATA, 0, [0, 0, 0]);
    let flush = sqe(0, 2, 1, 0, 0, [0; 3]);
    let unknown = sqe(0x30, 3, 1, 0, 0, [0; 3]);
    assert!(matches!(
        ring(&mut controller, &mem, &[read, unknown, flush]),
        BarWrite::Disk(DiskRequest::Read { .. })
    ));
    assert!(matches!(
        controller.disk_done(None),
        Some(DiskRequest::Flush)
    ));
    assert!(controller.disk_done(Some(Vec::new())).is_none());
    let queue = controller.io_queues[0];
    assert_eq!(queue.sq_head, queue.sq_tail);
    assert_eq!(queue.sq_head, 3);
    assert_eq!(
        [
            io_status(&mem, 0),
            io_status(&mem, 1),
            io_status(&mem, 2)
        ],
        [0x11, 1, 0]
    );
}

#[test]
fn halves_of_a_queue_address_come_in_either_order() {
    let value: u64 = 0x0000_0012_3456_7000;
    let bytes = value.to_le_bytes();
    for (offset, other) in [(0x28u64, 0x30u64), (0x30, 0x28)] {
        for low_first in [true, false] {
            let mut controller = NvmeController::new(
                "disk".to_owned(),
                0,
                false,
                shared(memory()),
                1,
                None,
            );
            let halves = [(offset, &bytes[..4]), (offset + 4, &bytes[4..])];
            for i in if low_first { [0, 1] } else { [1, 0] } {
                let _ = controller.write(halves[i].0, halves[i].1);
            }
            let mut wide = [0; 8];
            controller.read(offset, &mut wide);
            assert_eq!(wide, bytes);
            controller.read(other, &mut wide);
            assert_eq!(wide, [0; 8]);
            assert_eq!(controller.admin_queue.queue_size, 0);
            assert_eq!(controller.cc, 0);
            assert_eq!(controller.id, "disk");
        }
    }
}

#[test]
fn a_block_is_read_from_where_it_was_written() {
    let mem = memory();
    let mut controller = with_io_queue(&mem, false);
    let mut disk = vec![0u8; 64 * 512];
    let block: Vec<u8> = (0..1024u32).map(|i| (i % 251) as u8).collect();
    mem.write(&block, GuestAddress(DATA)).unwrap();
    let BarWrite::Disk(DiskRequest::Write { offset, data }) = ring(
        &mut controller,
        &mem,
        &[sqe(1, 1, 1, DATA, 0, [5, 0, 1])],
    ) else {
        panic!("no write");
    };
    disk[offset as usize..offset as usize + data.len()].copy_from_slice(&data);
    assert!(controller.disk_done(Some(Vec::new())).is_none());
    let BarWrite::Disk(DiskRequest::Read { offset, length }) = ring(
        &mut controller,
        &mem,
        &[sqe(2, 2, 1, DATA + 0x2000, 0, [5, 0, 1])],
    ) else {
        panic!("no read");
    };
    let reply = disk[offset as usize..(offset + length) as usize].to_vec();
    assert!(controller.disk_done(Some(reply)).is_none());
    assert_eq!(bytes_at(&mem, DATA + 0x2000, 1024), block);
}

#[test]
fn the_controller_is_mass_storage() {
    assert_eq!(
        pci_identity(),
        PciIdentity {
            vendor_id: 0x1AF4,
            device_id: 0x2000,
            revision_id: 0,
            class_code: 0x01,
            subclass: 0x08,
            programming_interface: 0x02,
            subsystem_vendor_id: 0x1AF4,
            subsystem_id: 0x2000,
        }
    );
    assert_eq!(
        register_bar(),
        PciBar {
            index: 0,
            size: 0x10000,
            is_64_bit: false,
            prefetchable: false,
        }
    );
}

#[test]
fn a_completion_carries_its_result() {
    let mem = memory();
    let mut controller = enabled(&mem, false);
    for k in 0..6u16 {
        controller.enqueue_completion(0, 100 + k, k, 0, 0x1234_5670 + u32::from(k));
        let entry = bytes_at(&mem, CQ + 16 * u64::from(k % 4), 16);
        assert_eq!(entry[..4], (0x1234_5670 + u32::from(k)).to_le_bytes());
        assert_eq!(entry[4..12], [0; 8]);
        assert_eq!(entry[12..14], (100 + k).to_le_bytes());
        let phase = u16::from(k < 4);
        assert_eq!(entry[14..16], (k << 1 | phase).to_le_bytes());
    }
    assert_eq!(controller.admin_queue.cq_tail, 2);
}

#[test]
fn commands_are_found_in_the_memory_that_is_there() {
    let (first, second) = (memory(), memory());
    let source = GuestMemoryAtomic::new(first.clone());
    let mut controller = NvmeController::new(
        "nvme0".to_owned(),
        64 * 512,
        false,
        SharedMemory {
            memory: source.clone(),
        },
        2,
        Some(16),
    );
    let _ = controller.write(0x24, &0x0003_0003u32.to_le_bytes());
    let _ = controller.write(0x28, &SQ.to_le_bytes());
    let _ = controller.write(0x30, &CQ.to_le_bytes());
    let _ = controller.write(0x14, &1u32.to_le_bytes());
    assert_eq!(
        admin(&mut controller, &first, sqe(6, 1, 0, DATA, 0, [1, 0, 0])),
        0
    );
    assert_ne!(bytes_at(&first, DATA, 4096), [0; 4096]);
    source.lock().unwrap().replace(second.clone());
    assert_eq!(
        admin(&mut controller, &second, sqe(6, 2, 0, DATA, 0, [1, 0, 0])),
        0
    );
    assert_eq!(bytes_at(&first, DATA, 4096), bytes_at(&second, DATA, 4096));
    assert_eq!(bytes_at(&first, CQ + 16, 16), [0; 16]);
    assert_eq!(bytes_at(&second, CQ, 16), [0; 16]);
    assert_eq!(bytes_at(&second, CQ + 28, 2), [2, 0]);
}
