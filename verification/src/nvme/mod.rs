//! A minimal NVMe 1.4 controller with one namespace on a disk image.
//!
//! It handles Read, Write and Flush, and the required admin commands: Create and Delete SQ,
//! Create CQ, Identify, Get and Set Features, Async Event Request.
use vstd::prelude::*;

use crate::bytes::{get_le32, push_le16, push_le32};

pub mod commands;
pub mod controller;
pub mod identify;
pub mod prp;
pub mod registers;
pub mod rings;

verus! {

/// The size of a page of guest memory.
pub const NVME_PAGE_SIZE: u64 = 4096;

/// The size of the registers, the doorbells and the MSI-X structures.
pub const BAR0_SIZE: u64 = 0x10000;

/// The distance between the doorbells of two queues.
pub const DBL_STRIDE: u64 = 8;

/// Where the doorbells start.
pub const DBL_BASE_OFFSET: u64 = 0x1000;

/// Where the MSI-X table starts.
pub const MSIX_TABLE_START: u32 = 0x2000;

/// Where the pending bits of MSI-X start.
pub const MSIX_PBA_START: u32 = 0x6000;

/// The largest number of I/O submission queues.
pub const NVME_MAX_IO_QUEUES: u16 = 1023;

/// The size of a logical block.
pub const LBA_SIZE: u64 = 512;

pub const CAP_OFFSET: u64 = 0x0000;

pub const VS_OFFSET: u64 = 0x0008;

pub const INTMS_OFFSET: u64 = 0x000c;

pub const INTMC_OFFSET: u64 = 0x0010;

pub const CC_OFFSET: u64 = 0x0014;

pub const CSTS_OFFSET: u64 = 0x001c;

pub const AQA_OFFSET: u64 = 0x0024;

pub const ASQ_OFFSET: u64 = 0x0028;

pub const ACQ_OFFSET: u64 = 0x0030;

/// The capabilities of the controller.
pub const CAP_VALUE: u64 = 0x0040_0020_0000_01ff;

/// The version of the interface.
pub const VS_VALUE: u32 = 0x1400;

pub const NVME_CMD_FLUSH: u8 = 0x00;

pub const NVME_CMD_WRITE: u8 = 0x01;

pub const NVME_CMD_READ: u8 = 0x02;

pub const NVME_ADMIN_DELETE_SQ: u8 = 0x00;

pub const NVME_ADMIN_CREATE_SQ: u8 = 0x01;

pub const NVME_ADMIN_GET_LOG_PAGE: u8 = 0x02;

pub const NVME_ADMIN_CREATE_CQ: u8 = 0x05;

pub const NVME_ADMIN_IDENTIFY: u8 = 0x06;

pub const NVME_ADMIN_ABORT_CMD: u8 = 0x08;

pub const NVME_ADMIN_SET_FEATURES: u8 = 0x09;

pub const NVME_ADMIN_GET_FEATURES: u8 = 0x0a;

pub const NVME_ADMIN_ASYNC_EVENT_REQ: u8 = 0x0c;

pub const NVME_SC_SUCCESS: u16 = 0x0;

pub const NVME_SC_INVALID_OPCODE: u16 = 0x1;

pub const NVME_SC_INVALID_FIELD: u16 = 0x2;

pub const NVME_SC_INVALID_NS: u16 = 0xc;

pub const NVME_SC_INTERNAL_ERROR: u16 = 0x11;

/// How a PCI function names itself in its configuration space.
#[derive(Clone, Copy, Debug, PartialEq, Eq)]
pub struct PciIdentity {
    pub vendor_id: u16,
    pub device_id: u16,
    pub revision_id: u8,
    pub class_code: u8,
    pub subclass: u8,
    pub programming_interface: u8,
    pub subsystem_vendor_id: u16,
    pub subsystem_id: u16,
}

/// The memory that a PCI function asks for.
#[derive(Clone, Copy, Debug, PartialEq, Eq)]
pub struct PciBar {
    pub index: usize,
    pub size: u64,
    pub is_64_bit: bool,
    pub prefetchable: bool,
}

/// The identity of the controller: mass storage, non-volatile memory, NVM Express.
pub fn pci_identity() -> (r: PciIdentity)
    ensures
        r == (PciIdentity {
            vendor_id: 0x1af4,
            device_id: 0x2000,
            revision_id: 0x00,
            class_code: 0x01,
            subclass: 0x08,
            programming_interface: 0x02,
            subsystem_vendor_id: 0x1af4,
            subsystem_id: 0x2000,
        }),
{
    PciIdentity {
        vendor_id: 0x1af4,
        device_id: 0x2000,
        revision_id: 0x00,
        class_code: 0x01,
        subclass: 0x08,
        programming_interface: 0x02,
        subsystem_vendor_id: 0x1af4,
        subsystem_id: 0x2000,
    }
}

/// The memory for the registers: it lies below four gigabytes, and is not prefetched.
pub fn register_bar() -> (r: PciBar)
    ensures
        r == (PciBar { index: 0, size: 0x10000, is_64_bit: false, prefetchable: false }),
{
    PciBar { index: 0, size: BAR0_SIZE, is_64_bit: false, prefetchable: false }
}

#[derive(Clone, Copy, Debug, PartialEq, Eq)]
pub enum Error {
    /// The PCI configuration failed.
    PciConfig,
    /// There is no room for the registers.
    BarAllocation(u64),
    /// Guest memory could not be accessed.
    GuestMemory,
    /// The physical region pages do not hold the data.
    InvalidPrpList,
    /// The command is unknown.
    InvalidCommand,
    /// The controller is not enabled.
    ControllerNotReady,
    /// There is no such namespace.
    InvalidNamespace,
    /// The disk could not be read or written.
    DiskIo,
    /// An interrupt could not be triggered.
    MsiXInterrupt,
    /// The disk image could not be opened.
    DiskFile,
    /// The MSI-X capability could not be set up.
    MsixSetup,
    /// The interrupts could not be allocated.
    InterruptGroup,
}

/// A submission queue entry: what a command is made of.
#[derive(Clone, Copy, Debug, PartialEq, Eq)]
pub struct NvmeSqe {
    /// The opcode, the flags and the identifier of the command.
    pub dword0: u32,
    pub nsid: u32,
    pub cdw10: u32,
    pub cdw11: u32,
    pub cdw12: u32,
    pub prp1_lo: u32,
    pub prp1_hi: u32,
    pub prp2_lo: u32,
    pub prp2_hi: u32,
}

impl NvmeSqe {
    pub open spec fn opcode_spec(self) -> u8 {
        (self.dword0 % 0x100) as u8
    }

    pub open spec fn command_id_spec(self) -> u16 {
        (self.dword0 / 0x1_0000) as u16
    }

    pub open spec fn prp1_spec(self) -> u64 {
        (self.prp1_lo + 0x1_0000_0000 * self.prp1_hi) as u64
    }

    pub open spec fn prp2_spec(self) -> u64 {
        (self.prp2_lo + 0x1_0000_0000 * self.prp2_hi) as u64
    }

    /// The first logical block of a read or a write.
    pub open spec fn slba(self) -> u64 {
        (self.cdw10 + 0x1_0000_0000 * self.cdw11) as u64
    }

    /// How many logical blocks a read or a write has.
    pub open spec fn blocks(self) -> int {
        self.cdw12 % 0x1_0000 + 1
    }

    /// The namespace, where none stands for the only one.
    pub open spec fn namespace(self) -> u32 {
        if self.nsid == 0 {
            1
        } else {
            self.nsid
        }
    }

    pub fn opcode(&self) -> (r: u8)
        ensures
            r == self.opcode_spec(),
    {
        (self.dword0 % 0x100) as u8
    }

    pub fn command_id(&self) -> (r: u16)
        ensures
            r == self.command_id_spec(),
    {
        (self.dword0 / 0x1_0000) as u16
    }

    pub fn prp1(&self) -> (r: u64)
        ensures
            r == self.prp1_spec(),
    {
        self.prp1_lo as u64 + 0x1_0000_0000 * (self.prp1_hi as u64)
    }

    pub fn prp2(&self) -> (r: u64)
        ensures
            r == self.prp2_spec(),
    {
        self.prp2_lo as u64 + 0x1_0000_0000 * (self.prp2_hi as u64)
    }
}

/// The command that 64 bytes hold.
pub open spec fn sqe_of(bytes: Seq<u8>) -> NvmeSqe {
    NvmeSqe {
        dword0: crate::bytes::le32(bytes, 0),
        nsid: crate::bytes::le32(bytes, 8),
        cdw10: crate::bytes::le32(bytes, 40),
        cdw11: crate::bytes::le32(bytes, 44),
        cdw12: crate::bytes::le32(bytes, 48),
        prp1_lo: crate::bytes::le32(bytes, 24),
        prp1_hi: crate::bytes::le32(bytes, 28),
        prp2_lo: crate::bytes::le32(bytes, 32),
        prp2_hi: crate::bytes::le32(bytes, 36),
    }
}

/// The command that 64 bytes hold.
pub fn parse_sqe(bytes: &[u8]) -> (r: NvmeSqe)
    requires
        bytes.len() == 64,
    ensures
        r == sqe_of(bytes@),
{
    NvmeSqe {
        dword0: get_le32(bytes, 0),
        nsid: get_le32(bytes, 8),
        cdw10: get_le32(bytes, 40),
        cdw11: get_le32(bytes, 44),
        cdw12: get_le32(bytes, 48),
        prp1_lo: get_le32(bytes, 24),
        prp1_hi: get_le32(bytes, 28),
        prp2_lo: get_le32(bytes, 32),
        prp2_hi: get_le32(bytes, 36),
    }
}

/// A completion queue entry.
#[derive(Clone, Copy, Debug, PartialEq, Eq)]
pub struct NvmeCqe {
    pub dword0: u32,
    pub dword1: u32,
    pub sqhd: u16,
    pub sqid: u16,
    pub cid: u16,
    /// The phase, then the status.
    pub status_fields: u16,
}

impl NvmeCqe {
    /// The sixteen bytes of the entry.
    pub open spec fn image(self) -> Seq<u8> {
        crate::bytes::le32_bytes(self.dword0) + crate::bytes::le32_bytes(self.dword1)
            + crate::bytes::le16_bytes(self.sqhd) + crate::bytes::le16_bytes(self.sqid)
            + crate::bytes::le16_bytes(self.cid) + crate::bytes::le16_bytes(self.status_fields)
    }

    pub open spec fn built(
        cid: u16,
        phase: bool,
        sc: u16,
        sq_id: u16,
        sq_head: u16,
        result: u32,
    ) -> NvmeCqe {
        NvmeCqe {
            dword0: result,
            dword1: 0,
            sqhd: sq_head,
            sqid: sq_id,
            cid,
            status_fields: (2 * sc + (if phase {
                1int
            } else {
                0
            })) as u16,
        }
    }

    pub fn new(cid: u16, phase: bool, sc: u16, sq_id: u16, sq_head: u16, result: u32) -> (r: Self)
        requires
            sc < 0x8000,
        ensures
            r == NvmeCqe::built(cid, phase, sc, sq_id, sq_head, result),
    {
        let tag: u16 = if phase {
            1
        } else {
            0
        };
        NvmeCqe {
            dword0: result,
            dword1: 0,
            sqhd: sq_head,
            sqid: sq_id,
            cid,
            status_fields: 2 * sc + tag,
        }
    }

    pub fn to_bytes(&self) -> (r: Vec<u8>)
        ensures
            r@ == self.image(),
            r@.len() == 16,
    {
        let mut bytes: Vec<u8> = Vec::new();
        push_le32(&mut bytes, self.dword0);
        push_le32(&mut bytes, self.dword1);
        push_le16(&mut bytes, self.sqhd);
        push_le16(&mut bytes, self.sqid);
        push_le16(&mut bytes, self.cid);
        push_le16(&mut bytes, self.status_fields);
        assert(bytes@ =~= self.image());
        bytes
    }
}

/// A submission queue and its completion queue.
#[derive(Clone, Copy, Debug, PartialEq, Eq)]
pub struct NvmeQueue {
    /// Where the submission queue lies in guest memory.
    pub sq_addr: Option<u64>,
    /// Where the completion queue lies in guest memory.
    pub cq_addr: Option<u64>,
    /// How many entries each of them has.
    pub queue_size: u16,
    /// The next command to process.
    pub sq_head: u16,
    /// The end of the commands.
    pub sq_tail: u16,
    /// The next completion to write.
    pub cq_tail: u16,
    /// The phase of the next completion.
    pub cq_phase: bool,
    pub allocated: bool,
}

impl NvmeQueue {
    /// A queue that does not exist.
    pub open spec fn unused() -> NvmeQueue {
        NvmeQueue {
            sq_addr: None,
            cq_addr: None,
            queue_size: 0,
            sq_head: 0,
            sq_tail: 0,
            cq_tail: 0,
            cq_phase: false,
            allocated: false,
        }
    }

    /// An entry can be counted past, and a queue that commands are taken from or completions
    /// put into has entries.
    pub open spec fn valid(self) -> bool {
        &&& self.sq_head < u16::MAX
        &&& self.cq_tail < u16::MAX
        &&& self.allocated ==> self.queue_size > 0
    }

    /// The queue after one more command was taken.
    pub open spec fn command_taken(self) -> NvmeQueue {
        NvmeQueue { sq_head: ((self.sq_head + 1) % self.queue_size as int) as u16, ..self }
    }

    /// The queue after one more completion: at the end of the ring the phase changes.
    pub open spec fn completion_put(self) -> NvmeQueue {
        let tail = ((self.cq_tail + 1) % self.queue_size as int) as u16;
        NvmeQueue { cq_tail: tail, cq_phase: self.cq_phase != (tail < self.cq_tail), ..self }
    }

    pub fn new() -> (r: NvmeQueue)
        ensures
            r == NvmeQueue::unused(),
            r.valid(),
    {
        NvmeQueue {
            sq_addr: None,
            cq_addr: None,
            queue_size: 0,
            sq_head: 0,
            sq_tail: 0,
            cq_tail: 0,
            cq_phase: false,
            allocated: false,
        }
    }

    fn take_command(&mut self)
        requires
            old(self).valid(),
            old(self).queue_size > 0,
        ensures
            *final(self) == old(self).command_taken(),
            final(self).valid(),
    {
        self.sq_head = (self.sq_head + 1) % self.queue_size;
    }

    fn put_completion(&mut self)
        requires
            old(self).valid(),
            old(self).queue_size > 0,
        ensures
            *final(self) == old(self).completion_put(),
            final(self).valid(),
    {
        let old_tail: u16 = self.cq_tail;
        self.cq_tail = (old_tail + 1) % self.queue_size;
        if self.cq_tail < old_tail {
            self.cq_phase = !self.cq_phase;
        }
    }
}

/// The MSI-X capability: where the table and the pending bits lie, and how many vectors
/// there are.
#[derive(Clone, Copy, Debug, PartialEq, Eq)]
pub struct MsixCap {
    pub msg_ctl: u16,
    pub table: u32,
    pub pba: u32,
}

impl MsixCap {
    pub open spec fn vectors(self) -> int {
        self.msg_ctl % 0x800 + 1
    }

    pub open spec fn table_start(self) -> int {
        self.table - self.table % 8
    }

    pub open spec fn table_end(self) -> int {
        self.table_start() + 16 * self.vectors()
    }

    pub open spec fn pba_start(self) -> int {
        self.pba - self.pba % 8
    }

    pub open spec fn pba_end(self) -> int {
        self.pba_start() + 8 * (self.vectors() / 64 + 1)
    }

    /// The guest switches the function mask and the enable bit; the size stays.
    pub open spec fn controlled(self, value: u16) -> MsixCap {
        MsixCap {
            msg_ctl: (self.msg_ctl % 0x4000 + value / 0x4000 * 0x4000) as u16,
            ..self
        }
    }

    /// The capability of a device with `vectors` vectors, enabled.
    pub fn new(vectors: u16) -> (r: MsixCap)
        requires
            0 < vectors <= 0x800,
        ensures
            r == (MsixCap {
                msg_ctl: (0x8000 + vectors - 1) as u16,
                table: MSIX_TABLE_START,
                pba: MSIX_PBA_START,
            }),
            r.vectors() == vectors,
    {
        MsixCap { msg_ctl: 0x8000 + (vectors - 1), table: MSIX_TABLE_START, pba: MSIX_PBA_START }
    }

    pub fn set_msg_ctl(&mut self, value: u16)
        ensures
            *final(self) == old(self).controlled(value),
    {
        self.msg_ctl = self.msg_ctl % 0x4000 + value / 0x4000 * 0x4000;
    }

    pub fn table_offset(&self) -> (r: u64)
        ensures
            r == self.table_start(),
    {
        (self.table - self.table % 8) as u64
    }

    pub fn pba_offset(&self) -> (r: u64)
        ensures
            r == self.pba_start(),
    {
        (self.pba - self.pba % 8) as u64
    }

    pub fn table_size(&self) -> (r: u16)
        ensures
            r == self.vectors(),
    {
        self.msg_ctl % 0x800 + 1
    }
}

} // verus!
