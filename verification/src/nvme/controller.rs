//! The registers, the queues and the commands of the controller.
//!
//! The disk is not accessed here. A command that needs it makes a [`DiskRequest`] and waits;
//! [`NvmeController::disk_done`] takes the outcome, completes the command and goes on with the
//! queue.
use vstd::prelude::*;

use std::sync::Arc;

use crate::bytes::{get_le16, get_le32, get_le64, push_le32, push_le64, range_of};
use crate::nvme::identify::{identify_controller, identify_namespace, identify_namespace_list};
use crate::nvme::prp::{prp_capacity, read_prp, write_prp};
use crate::nvme::{
    parse_sqe, MsixCap, NvmeCqe, NvmeQueue, NvmeSqe, ACQ_OFFSET, AQA_OFFSET, ASQ_OFFSET, CAP_OFFSET,
    CAP_VALUE, CC_OFFSET, CSTS_OFFSET, DBL_BASE_OFFSET, DBL_STRIDE, INTMC_OFFSET, INTMS_OFFSET,
    LBA_SIZE, NVME_ADMIN_ABORT_CMD, NVME_ADMIN_ASYNC_EVENT_REQ, NVME_ADMIN_CREATE_CQ,
    NVME_ADMIN_CREATE_SQ, NVME_ADMIN_DELETE_SQ, NVME_ADMIN_GET_FEATURES, NVME_ADMIN_GET_LOG_PAGE,
    NVME_ADMIN_IDENTIFY, NVME_ADMIN_SET_FEATURES, NVME_CMD_FLUSH, NVME_CMD_READ, NVME_CMD_WRITE,
    NVME_MAX_IO_QUEUES, NVME_SC_INTERNAL_ERROR, NVME_SC_INVALID_FIELD, NVME_SC_INVALID_NS,
    NVME_SC_INVALID_OPCODE, NVME_SC_SUCCESS, VS_OFFSET, VS_VALUE,
};
use crate::ram::{GuestRam, Mapped, RamAnswers, SharedMemory};

verus! {

broadcast use {crate::ram::group_answers, crate::ram::lemma_settled};

/// What is to be done with the disk.
pub enum DiskRequest {
    /// Read bytes from an offset on.
    Read { offset: u64, length: u64 },
    /// Write bytes from an offset on.
    Write { offset: u64, data: Vec<u8> },
    /// Make earlier writes durable.
    Flush,
}

/// A disk request as a value.
pub enum DiskOp {
    Read { offset: u64, length: u64 },
    Write { offset: u64, data: Seq<u8> },
    Flush,
}

impl View for DiskRequest {
    type V = DiskOp;

    open spec fn view(&self) -> DiskOp {
        match *self {
            DiskRequest::Read { offset, length } => DiskOp::Read { offset, length },
            DiskRequest::Write { offset, data } => DiskOp::Write { offset, data: data@ },
            DiskRequest::Flush => DiskOp::Flush,
        }
    }
}

/// A command that waits for the disk.
pub struct PendingIo {
    /// The queue of the command.
    pub sqid: u16,
    /// The command.
    pub sqe: NvmeSqe,
    /// How many more commands of the queue may be processed before its doorbell is done.
    pub left: u16,
    /// The memory that the commands of the queue are read from until then.
    pub memory: Arc<Mapped>,
}

/// A command that waits for the disk, as a value.
pub struct Waiting {
    pub sqid: u16,
    pub sqe: NvmeSqe,
    pub left: u16,
    pub memory: Mapped,
}

impl View for PendingIo {
    type V = Waiting;

    open spec fn view(&self) -> Waiting {
        Waiting { sqid: self.sqid, sqe: self.sqe, left: self.left, memory: *self.memory }
    }
}

/// What a write to the registers leads to.
pub enum BarWrite {
    /// Nothing more.
    Done,
    /// A write to the MSI-X table, at this offset of it.
    MsixTable(u64),
    /// A write to the pending bits of MSI-X, at this offset of them.
    MsixPba(u64),
    /// A request to the disk.
    Disk(DiskRequest),
}

/// What a read of the registers leads to.
#[derive(Clone, Copy, Debug, PartialEq, Eq)]
pub enum BarRead {
    /// Nothing more.
    Done,
    /// A read of the MSI-X table, at this offset of it.
    MsixTable(u64),
    /// A read of the pending bits of MSI-X, at this offset of them.
    MsixPba(u64),
}

/// Where an offset lies in the registers.
#[derive(Clone, Copy, Debug, PartialEq, Eq)]
pub enum BarRegion {
    Register,
    MsixTable(u64),
    MsixPba(u64),
    Doorbell,
}

/// The state of the controller.
pub struct Nvme {
    pub id: Seq<char>,
    pub admin: NvmeQueue,
    pub io: Seq<NvmeQueue>,
    pub cc_en: bool,
    pub cc: u32,
    pub intms: u32,
    pub capacity: u64,
    pub readonly: bool,
    pub max_io: u16,
    pub asq_lo: u32,
    pub asq_hi: u32,
    pub acq_lo: u32,
    pub acq_hi: u32,
    pub ram: crate::ram::Ram,
    pub msix_cap: MsixCap,
    pub msix_reg: Option<usize>,
    pub msix_masked: bool,
    pub vectors_masked: Seq<bool>,
    pub interrupts: Seq<u16>,
    pub pending: Option<Waiting>,
    pub bar0_base: Option<u64>,
}

/// The bytes of a 64-bit register as an access to its byte `rel` delivers them: whole, in
/// halves, or byte by byte up to its end.
pub open spec fn reg64_read(value: u64, rel: int, data: Seq<u8>) -> Seq<u8> {
    let bytes = crate::bytes::le64_bytes(value);
    if rel == 0 && data.len() >= 8 {
        crate::bytes::overlay(data, 0, bytes)
    } else if rel == 0 && data.len() >= 4 {
        crate::bytes::overlay(data, 0, bytes.take(4))
    } else if rel == 4 && data.len() >= 4 {
        crate::bytes::overlay(data, 0, bytes.skip(4))
    } else {
        Seq::new(
            data.len(),
            |i: int|
                if rel + i < 8 {
                    bytes[rel + i]
                } else {
                    data[i]
                },
        )
    }
}

/// The bytes of a 32-bit register; a short access delivers nothing.
pub open spec fn reg32_read(value: u32, data: Seq<u8>) -> Seq<u8> {
    if data.len() >= 4 {
        crate::bytes::overlay(data, 0, crate::bytes::le32_bytes(value))
    } else {
        data
    }
}

/// The value of a write of up to four bytes, or of the first four of a longer one.
pub open spec fn value32(data: Seq<u8>) -> u32 {
    crate::bytes::le32(data + crate::bytes::zeros(4), 0)
}

/// The value of a write of up to two bytes, or of the first two of a longer one.
pub open spec fn value16(data: Seq<u8>) -> u16 {
    crate::bytes::le16(data + crate::bytes::zeros(2), 0)
}

pub open spec fn joined(hi: u32, lo: u32) -> u64 {
    (0x1_0000_0000 * hi + lo) as u64
}

/// One more than a number, as far as that is a 16-bit number.
pub open spec fn next16(value: u16) -> u16 {
    if value == u16::MAX {
        u16::MAX
    } else {
        (value + 1) as u16
    }
}

pub open spec fn greater(a: u16, b: u16) -> u16 {
    if a >= b {
        a
    } else {
        b
    }
}

impl Nvme {
    /// The same controller of a guest with other answers to its copies.
    pub open spec fn under(self, answers: RamAnswers) -> Nvme {
        Nvme { ram: self.ram.under(answers), ..self }
    }

    pub open spec fn valid(self) -> bool {
        &&& self.max_io <= NVME_MAX_IO_QUEUES
        &&& self.io.len() == self.max_io
        &&& self.vectors_masked.len() == self.max_io + 1
        &&& self.capacity * LBA_SIZE <= u64::MAX
        &&& self.admin.valid()
        &&& forall|i: int| 0 <= i < self.io.len() ==> (#[trigger] self.io[i]).valid()
        &&& self.pending matches Some(io) ==> 1 <= io.sqid <= self.max_io && self.io[io.sqid
            - 1].queue_size > 0
    }

    pub open spec fn region(self, offset: u64) -> BarRegion {
        if offset < DBL_BASE_OFFSET {
            BarRegion::Register
        } else if self.msix_cap.table_start() <= offset < self.msix_cap.table_end() {
            BarRegion::MsixTable((offset - self.msix_cap.table_start()) as u64)
        } else if self.msix_cap.pba_start() <= offset < self.msix_cap.pba_end() {
            BarRegion::MsixPba((offset - self.msix_cap.pba_start()) as u64)
        } else {
            BarRegion::Doorbell
        }
    }

    /// A read of a register into `data`.
    pub open spec fn register_read(self, offset: u64, data: Seq<u8>) -> Seq<u8> {
        if offset < CAP_OFFSET + 8 {
            reg64_read(CAP_VALUE, offset - CAP_OFFSET, data)
        } else if ASQ_OFFSET <= offset < ASQ_OFFSET + 8 {
            reg64_read(
                (if let Some(address) = self.admin.sq_addr {
                    address
                } else {
                    0
                }),
                offset - ASQ_OFFSET,
                data,
            )
        } else if ACQ_OFFSET <= offset < ACQ_OFFSET + 8 {
            reg64_read(
                (if let Some(address) = self.admin.cq_addr {
                    address
                } else {
                    0
                }),
                offset - ACQ_OFFSET,
                data,
            )
        } else if offset == VS_OFFSET {
            reg32_read(VS_VALUE, data)
        } else if offset == INTMS_OFFSET || offset == INTMC_OFFSET {
            reg32_read(0, data)
        } else if offset == CC_OFFSET {
            reg32_read(self.cc, data)
        } else if offset == CSTS_OFFSET {
            reg32_read(
                (if self.cc_en {
                    1
                } else {
                    0
                }),
                data,
            )
        } else if offset == AQA_OFFSET {
            reg32_read(
                (if self.admin.allocated {
                    (0x1_0001 * (self.admin.queue_size - 1)) as u32
                } else {
                    0
                }),
                data,
            )
        } else {
            crate::bytes::zeros(data.len())
        }
    }

    /// The controller enabled or disabled. Disabling it empties the admin queue, and removes
    /// the other queues.
    pub open spec fn configured(self, cc: u32) -> Nvme {
        let enable = cc % 2 != 0;
        if self.cc_en && !enable {
            Nvme {
                cc,
                cc_en: false,
                admin: NvmeQueue {
                    sq_head: 0,
                    sq_tail: 0,
                    cq_tail: 0,
                    cq_phase: true,
                    ..self.admin
                },
                io: Seq::new(self.io.len(), |i: int| NvmeQueue::unused()),
                ..self
            }
        } else {
            Nvme { cc, cc_en: enable, ..self }
        }
    }

    /// The address of the admin submission queue, written whole or in halves. A half takes
    /// effect once the whole is not zero.
    pub open spec fn asq_written(self, rel: int, data: Seq<u8>) -> Nvme {
        if data.len() == 8 && rel == 0 {
            Nvme {
                admin: NvmeQueue { sq_addr: Some(crate::bytes::le64(data, 0)), ..self.admin },
                ..self
            }
        } else {
            let lo = if rel == 0 {
                value32(data)
            } else {
                self.asq_lo
            };
            let hi = if rel == 0 {
                self.asq_hi
            } else {
                value32(data)
            };
            Nvme {
                asq_lo: lo,
                asq_hi: hi,
                admin: NvmeQueue {
                    sq_addr: if joined(hi, lo) == 0 {
                        self.admin.sq_addr
                    } else {
                        Some(joined(hi, lo))
                    },
                    ..self.admin
                },
                ..self
            }
        }
    }

    /// The address of the admin completion queue, written in the same ways.
    pub open spec fn acq_written(self, rel: int, data: Seq<u8>) -> Nvme {
        if data.len() == 8 && rel == 0 {
            Nvme {
                admin: NvmeQueue { cq_addr: Some(crate::bytes::le64(data, 0)), ..self.admin },
                ..self
            }
        } else {
            let lo = if rel == 0 {
                value32(data)
            } else {
                self.acq_lo
            };
            let hi = if rel == 0 {
                self.acq_hi
            } else {
                value32(data)
            };
            Nvme {
                acq_lo: lo,
                acq_hi: hi,
                admin: NvmeQueue {
                    cq_addr: if joined(hi, lo) == 0 {
                        self.admin.cq_addr
                    } else {
                        Some(joined(hi, lo))
                    },
                    ..self.admin
                },
                ..self
            }
        }
    }

    /// A write to a register.
    pub open spec fn register_written(self, offset: u64, data: Seq<u8>) -> Nvme {
        let value = value32(data);
        if offset == CC_OFFSET {
            self.configured(value)
        } else if offset == INTMS_OFFSET {
            Nvme { intms: self.intms | value, ..self }
        } else if offset == INTMC_OFFSET {
            Nvme { intms: self.intms & !value, ..self }
        } else if offset == AQA_OFFSET {
            Nvme {
                admin: NvmeQueue {
                    queue_size: greater(
                        next16((value % 0x1_0000) as u16),
                        next16((value / 0x1_0000) as u16),
                    ),
                    ..self.admin
                },
                ..self
            }
        } else if ASQ_OFFSET <= offset <= ASQ_OFFSET + 4 {
            self.asq_written(offset - ASQ_OFFSET, data)
        } else if ACQ_OFFSET <= offset <= ACQ_OFFSET + 4 {
            self.acq_written(offset - ACQ_OFFSET, data)
        } else {
            self
        }
    }

    pub open spec fn queue(self, id: u16) -> NvmeQueue {
        if id == 0 {
            self.admin
        } else {
            self.io[id - 1]
        }
    }

    pub open spec fn with_queue(self, id: u16, queue: NvmeQueue) -> Nvme {
        if id == 0 {
            Nvme { admin: queue, ..self }
        } else {
            Nvme { io: self.io.update(id - 1, queue), ..self }
        }
    }

    /// Whether the interrupt of a completion queue is masked. The bits of the mask register
    /// enable an interrupt.
    pub open spec fn interrupt_masked(self, id: u16) -> bool {
        self.msix_masked || self.vectors_masked[id as int] || self.intms & (1u32 << (id % 32) as u32)
            == 0
    }

    /// A completion written to a queue, with its interrupt. A queue that is not there, or not
    /// in memory, gets none.
    pub open spec fn completed(
        self,
        id: u16,
        cid: u16,
        status: u16,
        sq_id: u16,
        result: u32,
    ) -> Nvme {
        let queue = self.queue(id);
        match queue.cq_addr {
            None => self,
            Some(base) => {
                let address = base + 16 * (queue.cq_tail % queue.queue_size);
                if address > u64::MAX {
                    self
                } else {
                    let entry = NvmeCqe::built(cid, queue.cq_phase, status, sq_id, 0, result);
                    let (ram, taken) = self.ram.write_present(address as u64, entry.image());
                    if taken is None {
                        Nvme { ram, ..self }
                    } else {
                        let put = (Nvme { ram, ..self }).with_queue(id, queue.completion_put());
                        if self.interrupt_masked(id) {
                            put
                        } else {
                            Nvme { interrupts: self.interrupts.push(id), ..put }
                        }
                    }
                }
            },
        }
    }

    /// The command at the head of a queue, if the queue has entries and the command lies in
    /// memory.
    pub open spec fn fetched(self, memory: Mapped, id: u16) -> (Nvme, Option<NvmeSqe>) {
        let queue = self.queue(id);
        match queue.sq_addr {
            None => (self, None),
            Some(base) => {
                let address = base + 64 * (queue.sq_head % queue.queue_size);
                if queue.queue_size == 0 || address > u64::MAX {
                    (self, None)
                } else {
                    let (ram, got) = self.ram.read(memory, address as u64, 64);
                    match got {
                        None => (Nvme { ram, ..self }, None),
                        Some((_, bytes)) => (
                            Nvme { ram, ..self },
                            Some(crate::nvme::sqe_of(bytes)),
                        ),
                    }
                }
            },
        }
    }

    /// A command done: it leaves its queue, and its completion is written.
    pub open spec fn finished(self, id: u16, sqe: NvmeSqe, status: u16) -> Nvme {
        self.with_queue(id, self.queue(id).command_taken()).completed(
            id,
            sqe.command_id_spec(),
            status,
            id,
            0,
        )
    }
}

/// The registers do not depend on what the guest answers.
proof fn lemma_registers_aside(state: Nvme, answers: RamAnswers, offset: u64, data: Seq<u8>)
    ensures
        state.under(answers).register_written(offset, data) == state.register_written(
            offset,
            data,
        ).under(answers),
{
}

/// How a command of an I/O queue goes on.
pub enum IoOutcome {
    /// It is done, with this status.
    Status(u16),
    /// It waits for the disk.
    Disk(DiskOp),
}

/// What became of the next command of an I/O queue.
pub enum IoStep {
    /// There was none in memory.
    Stopped,
    /// It is completed.
    Finished,
    /// It waits for the disk.
    Waits(DiskOp),
}

/// What a write to the registers leads to, as a value.
pub enum BarAction {
    Done,
    MsixTable(u64),
    MsixPba(u64),
    Disk(DiskOp),
}

impl View for BarWrite {
    type V = BarAction;

    open spec fn view(&self) -> BarAction {
        match *self {
            BarWrite::Done => BarAction::Done,
            BarWrite::MsixTable(offset) => BarAction::MsixTable(offset),
            BarWrite::MsixPba(offset) => BarAction::MsixPba(offset),
            BarWrite::Disk(request) => BarAction::Disk(request@),
        }
    }
}

/// An optional request as a value.
pub open spec fn request_view(request: Option<DiskRequest>) -> Option<DiskOp> {
    match request {
        None => None,
        Some(request) => Some(request@),
    }
}

/// What was read from the disk put into the pages of a command: all of it, or as much as the
/// two entries hold.
pub open spec fn read_delivered(
    ram: crate::ram::Ram,
    sqe: NvmeSqe,
    data: Seq<u8>,
) -> crate::ram::Ram {
    let (prp1, prp2) = (sqe.prp1_spec(), sqe.prp2_spec());
    let (whole, outcome) = crate::nvme::prp::prp_write(ram, prp1, prp2, data);
    let room = crate::nvme::prp::capacity(prp1, prp2);
    let kept = if room <= data.len() {
        room
    } else {
        data.len() as int
    };
    if outcome is Ok || kept == 0 {
        whole
    } else {
        crate::nvme::prp::prp_write(whole, prp1, prp2, data.take(kept)).0
    }
}

impl Nvme {
    /// The page that an Identify command asks for, or the status that refuses it.
    pub open spec fn identified(self, sqe: NvmeSqe) -> Result<Seq<u8>, u16> {
        let cns = sqe.cdw10 % 0x100;
        if cns == 0 || cns == 4 {
            Ok(crate::nvme::identify::namespace_page(self.capacity))
        } else if cns == 1 {
            Ok(crate::nvme::identify::controller_page(self.capacity))
        } else if cns == 2 {
            if sqe.namespace() != 1 {
                Err(NVME_SC_INVALID_NS)
            } else {
                Ok(crate::nvme::identify::namespace_page(self.capacity))
            }
        } else if cns == 3 {
            Ok(crate::nvme::identify::namespace_list())
        } else {
            Err(NVME_SC_INVALID_FIELD)
        }
    }

    pub open spec fn identify_done(self, sqe: NvmeSqe) -> (Nvme, u16) {
        if sqe.prp1_spec() == 0 {
            (self, NVME_SC_INVALID_FIELD)
        } else {
            match self.identified(sqe) {
                Err(status) => (self, status),
                Ok(page) => {
                    let (ram, outcome) = crate::nvme::prp::prp_write(
                        self.ram,
                        sqe.prp1_spec(),
                        sqe.prp2_spec(),
                        page,
                    );
                    (
                        Nvme { ram, ..self },
                        if outcome is Ok {
                            NVME_SC_SUCCESS
                        } else {
                            NVME_SC_INTERNAL_ERROR
                        },
                    )
                },
            }
        }
    }

    /// Whether there may be an I/O queue of this number.
    pub open spec fn numbered(self, id: u16) -> bool {
        1 <= id <= self.max_io
    }

    /// A submission queue made. It uses the completion queue of its own number.
    pub open spec fn sq_created(self, sqe: NvmeSqe) -> (Nvme, u16) {
        let id = (sqe.cdw10 % 0x1_0000) as u16;
        let size = sqe.cdw10 / 0x1_0000;
        if !self.numbered(id) || self.io[id - 1].allocated || sqe.cdw11 / 0x1_0000 != id || size
            == u16::MAX {
            (self, NVME_SC_INVALID_FIELD)
        } else {
            (
                self.with_queue(
                    id,
                    NvmeQueue {
                        sq_addr: Some(sqe.prp1_spec()),
                        queue_size: (size + 1) as u16,
                        allocated: true,
                        cq_phase: sqe.cdw11 % 2 != 0,
                        ..self.io[id - 1]
                    },
                ),
                NVME_SC_SUCCESS,
            )
        }
    }

    /// A completion queue made.
    pub open spec fn cq_created(self, sqe: NvmeSqe) -> (Nvme, u16) {
        let id = (sqe.cdw10 % 0x1_0000) as u16;
        let size = sqe.cdw10 / 0x1_0000;
        if !self.numbered(id) || size == u16::MAX {
            (self, NVME_SC_INVALID_FIELD)
        } else {
            (
                self.with_queue(
                    id,
                    NvmeQueue {
                        cq_addr: Some(sqe.prp1_spec()),
                        queue_size: (size + 1) as u16,
                        cq_phase: sqe.cdw11 % 2 != 0,
                        ..self.io[id - 1]
                    },
                ),
                NVME_SC_SUCCESS,
            )
        }
    }

    /// A submission queue removed, with its completion queue.
    pub open spec fn sq_deleted(self, sqe: NvmeSqe) -> (Nvme, u16) {
        let id = sqe.command_id_spec();
        if !self.numbered(id) || !self.io[id - 1].allocated {
            (self, NVME_SC_INVALID_FIELD)
        } else {
            (self.with_queue(id, NvmeQueue::unused()), NVME_SC_SUCCESS)
        }
    }

    /// An admin command, and its status.
    pub open spec fn admin_done(self, sqe: NvmeSqe) -> (Nvme, u16) {
        match sqe.opcode_spec() {
            NVME_ADMIN_DELETE_SQ => self.sq_deleted(sqe),
            NVME_ADMIN_CREATE_SQ => self.sq_created(sqe),
            NVME_ADMIN_CREATE_CQ => self.cq_created(sqe),
            NVME_ADMIN_IDENTIFY => self.identify_done(sqe),
            NVME_ADMIN_GET_LOG_PAGE | NVME_ADMIN_GET_FEATURES | NVME_ADMIN_SET_FEATURES
            | NVME_ADMIN_ABORT_CMD | NVME_ADMIN_ASYNC_EVENT_REQ => (self, NVME_SC_SUCCESS),
            _ => (self, NVME_SC_INVALID_OPCODE),
        }
    }

    /// The next command of the admin queue, and whether there was one.
    pub open spec fn admin_stepped(self, memory: Mapped) -> (Nvme, bool) {
        let (fetched, sqe) = self.fetched(memory, 0);
        match sqe {
            None => (fetched, false),
            Some(sqe) => {
                let (done, status) = fetched.admin_done(sqe);
                (done.finished(0, sqe, status), true)
            },
        }
    }

    /// Up to `n` commands of the admin queue processed, which are read from one memory.
    pub open spec fn admin_drained(self, memory: Mapped, n: nat) -> Nvme
        decreases n,
    {
        if n == 0 || self.admin.sq_head == self.admin.sq_tail {
            self
        } else {
            let (next, more) = self.admin_stepped(memory);
            if more {
                next.admin_drained(memory, (n - 1) as nat)
            } else {
                next
            }
        }
    }

    /// Up to `n` commands of the admin queue processed.
    pub open spec fn admin_processed(self, n: nat) -> Nvme {
        let (ram, memory) = self.ram.loaded();
        (Nvme { ram, ..self }).admin_drained(memory, n)
    }

    /// Whether the blocks of a read or a write lie on the disk.
    pub open spec fn on_disk(self, sqe: NvmeSqe) -> bool {
        sqe.slba() + sqe.blocks() <= self.capacity
    }

    /// A command of an I/O queue.
    pub open spec fn io_done(self, sqe: NvmeSqe) -> (Nvme, IoOutcome) {
        let opcode = sqe.opcode_spec();
        if opcode == NVME_CMD_FLUSH {
            if self.readonly {
                (self, IoOutcome::Status(NVME_SC_SUCCESS))
            } else {
                (self, IoOutcome::Disk(DiskOp::Flush))
            }
        } else if opcode != NVME_CMD_READ && opcode != NVME_CMD_WRITE {
            (self, IoOutcome::Status(NVME_SC_INVALID_OPCODE))
        } else if opcode == NVME_CMD_WRITE && self.readonly {
            (self, IoOutcome::Status(NVME_SC_INVALID_FIELD))
        } else if sqe.namespace() != 1 {
            (self, IoOutcome::Status(NVME_SC_INVALID_NS))
        } else if !self.on_disk(sqe) {
            (self, IoOutcome::Status(NVME_SC_INVALID_FIELD))
        } else {
            let offset = (sqe.slba() * LBA_SIZE) as u64;
            let length = (sqe.blocks() * LBA_SIZE) as u64;
            if opcode == NVME_CMD_READ {
                (self, IoOutcome::Disk(DiskOp::Read { offset, length }))
            } else {
                let (ram, data) = crate::nvme::prp::prp_read(
                    self.ram,
                    sqe.prp1_spec(),
                    sqe.prp2_spec(),
                    length as nat,
                );
                match data {
                    Err(_) => (Nvme { ram, ..self }, IoOutcome::Status(NVME_SC_INTERNAL_ERROR)),
                    Ok(data) => (
                        Nvme { ram, ..self },
                        IoOutcome::Disk(DiskOp::Write { offset, data }),
                    ),
                }
            }
        }
    }

    /// The next command of an I/O queue, of which `n` may be processed.
    pub open spec fn io_stepped(self, memory: Mapped, id: u16, n: nat) -> (Nvme, IoStep) {
        let (fetched, sqe) = self.fetched(memory, id);
        match sqe {
            None => (fetched, IoStep::Stopped),
            Some(sqe) => {
                let (next, outcome) = fetched.io_done(sqe);
                match outcome {
                    IoOutcome::Status(status) => (
                        next.finished(id, sqe, status),
                        IoStep::Finished,
                    ),
                    IoOutcome::Disk(op) => (
                        Nvme {
                            pending: Some(Waiting { sqid: id, sqe, left: (n - 1) as u16, memory }),
                            ..next
                        },
                        IoStep::Waits(op),
                    ),
                }
            },
        }
    }

    /// Up to `n` commands of an I/O queue processed, which are read from one memory, and the
    /// request of the one that waits for the disk.
    pub open spec fn io_drained(self, memory: Mapped, id: u16, n: nat) -> (Nvme, Option<DiskOp>)
        decreases n,
    {
        if n == 0 || self.io[id - 1].sq_head == self.io[id - 1].sq_tail {
            (self, None)
        } else {
            let (next, step) = self.io_stepped(memory, id, n);
            match step {
                IoStep::Stopped => (next, None),
                IoStep::Finished => next.io_drained(memory, id, (n - 1) as nat),
                IoStep::Waits(op) => (next, Some(op)),
            }
        }
    }

    /// Up to `n` commands of an I/O queue processed, and the request of the one that waits
    /// for the disk.
    pub open spec fn io_processed(self, id: u16, n: nat) -> (Nvme, Option<DiskOp>) {
        let (ram, memory) = self.ram.loaded();
        (Nvme { ram, ..self }).io_drained(memory, id, n)
    }

    /// The outcome of a disk request given to the command that waits for it.
    pub open spec fn disk_answered(self, sqe: NvmeSqe, reply: Option<Seq<u8>>) -> (Nvme, u16) {
        match reply {
            None => (self, NVME_SC_INTERNAL_ERROR),
            Some(data) => if sqe.opcode_spec() == NVME_CMD_READ {
                (
                    Nvme { ram: read_delivered(self.ram, sqe, data), ..self },
                    NVME_SC_SUCCESS,
                )
            } else {
                (self, NVME_SC_SUCCESS)
            },
        }
    }

    /// The command that waits for the disk completed, and the rest of its queue processed.
    pub open spec fn disk_finished(self, reply: Option<Seq<u8>>) -> (Nvme, Option<DiskOp>) {
        match self.pending {
            None => (self, None),
            Some(io) => {
                let (next, status) = (Nvme { pending: None, ..self }).disk_answered(io.sqe, reply);
                next.finished(io.sqid, io.sqe, status).io_drained(
                    io.memory,
                    io.sqid,
                    io.left as nat,
                )
            },
        }
    }

    /// A new tail of a submission queue. The controller has to be enabled, and the queue
    /// there. One doorbell leads to no more commands than the queue has entries.
    pub open spec fn sq_doorbell(self, id: u16, tail: u16) -> (Nvme, Option<DiskOp>) {
        if !self.cc_en || id > self.max_io {
            (self, None)
        } else {
            let queue = self.queue(id);
            let rung = self.with_queue(id, NvmeQueue { sq_tail: tail, ..queue });
            let placed = queue.sq_addr is Some && queue.cq_addr is Some;
            if id == 0 {
                if !placed || queue.queue_size == 0 {
                    (self, None)
                } else {
                    (rung.admin_processed(queue.queue_size as nat), None)
                }
            } else if !queue.allocated {
                (self, None)
            } else if !placed {
                (rung, None)
            } else {
                rung.io_processed(id, queue.queue_size as nat)
            }
        }
    }

    /// A write of the registers.
    pub open spec fn bar_written(self, offset: u64, data: Seq<u8>) -> (Nvme, BarAction) {
        match self.region(offset) {
            BarRegion::Register => (self.register_written(offset, data), BarAction::Done),
            BarRegion::MsixTable(rel) => (self, BarAction::MsixTable(rel)),
            BarRegion::MsixPba(rel) => (self, BarAction::MsixPba(rel)),
            BarRegion::Doorbell => {
                let doorbell = (offset - DBL_BASE_OFFSET) as u64;
                if doorbell % DBL_STRIDE < 4 {
                    let (next, request) = self.sq_doorbell(
                        (doorbell / DBL_STRIDE) as u16,
                        value16(data),
                    );
                    match request {
                        None => (next, BarAction::Done),
                        Some(op) => (next, BarAction::Disk(op)),
                    }
                } else {
                    (self, BarAction::Done)
                }
            },
        }
    }

    /// A read of the registers into `data`.
    pub open spec fn bar_read(self, offset: u64, data: Seq<u8>) -> (Seq<u8>, BarRead) {
        match self.region(offset) {
            BarRegion::Register => (self.register_read(offset, data), BarRead::Done),
            BarRegion::MsixTable(rel) => (data, BarRead::MsixTable(rel)),
            BarRegion::MsixPba(rel) => (data, BarRead::MsixPba(rel)),
            BarRegion::Doorbell => (crate::bytes::zeros(data.len()), BarRead::Done),
        }
    }

    /// A write to the configuration space, as far as it concerns the MSI-X capability: its
    /// control word, or the place of its table or of its pending bits.
    pub open spec fn capability_written(self, reg: usize, offset: u64, data: Seq<u8>) -> Nvme {
        match self.msix_reg {
            None => self,
            Some(index) => if reg == index && offset == 2 && data.len() == 2 {
                Nvme { msix_cap: self.msix_cap.controlled(crate::bytes::le16(data, 0)), ..self }
            } else if reg == index && offset == 0 && data.len() == 4 {
                Nvme {
                    msix_cap: self.msix_cap.controlled(
                        (crate::bytes::le32(data, 0) / 0x1_0000) as u16,
                    ),
                    ..self
                }
            } else if reg == index + 1 && offset == 0 && data.len() == 4 {
                Nvme {
                    msix_cap: MsixCap { table: crate::bytes::le32(data, 0), ..self.msix_cap },
                    ..self
                }
            } else if reg == index + 2 && offset == 0 && data.len() == 4 {
                Nvme {
                    msix_cap: MsixCap { pba: crate::bytes::le32(data, 0), ..self.msix_cap },
                    ..self
                }
            } else {
                self
            },
        }
    }

    /// The controller of a disk of `disk_size` bytes, disabled.
    pub open spec fn fresh(
        id: Seq<char>,
        disk_size: u64,
        readonly: bool,
        ram: crate::ram::Ram,
        num_vcpus: u32,
        msix_reg: Option<usize>,
    ) -> Nvme {
        let max_io = if num_vcpus as u16 <= NVME_MAX_IO_QUEUES {
            num_vcpus as u16
        } else {
            NVME_MAX_IO_QUEUES
        };
        Nvme {
            id,
            admin: NvmeQueue { cq_phase: true, ..NvmeQueue::unused() },
            io: Seq::new(max_io as nat, |i: int| NvmeQueue::unused()),
            cc_en: false,
            cc: 0,
            intms: 0,
            capacity: disk_size / LBA_SIZE,
            readonly,
            max_io,
            asq_lo: 0,
            asq_hi: 0,
            acq_lo: 0,
            acq_hi: 0,
            ram,
            msix_cap: MsixCap {
                msg_ctl: (0x8000 + max_io) as u16,
                table: crate::nvme::MSIX_TABLE_START,
                pba: crate::nvme::MSIX_PBA_START,
            },
            msix_reg,
            msix_masked: true,
            vectors_masked: Seq::new((max_io + 1) as nat, |i: int| true),
            interrupts: Seq::empty(),
            pending: None,
            bar0_base: None,
        }
    }
}

pub struct NvmeController {
    pub id: String,
    pub admin_queue: NvmeQueue,
    pub io_queues: Vec<NvmeQueue>,
    pub cc_en: bool,
    pub cc: u32,
    pub intms: u32,
    pub namespace_capacity: u64,
    pub disk_readonly: bool,
    pub max_io_queues: u16,
    pub asq_lo: u32,
    pub asq_hi: u32,
    pub acq_lo: u32,
    pub acq_hi: u32,
    pub guest_memory: GuestRam,
    pub msix_cap: MsixCap,
    pub msix_cap_reg_idx: Option<usize>,
    /// Whether the function masks all its vectors.
    pub msix_masked: bool,
    /// The vectors that are masked one by one.
    pub vectors_masked: Vec<bool>,
    /// The vectors that are to be triggered, oldest first.
    pub interrupts: Vec<u16>,
    pub pending: Option<PendingIo>,
    pub bar0_base: Option<u64>,
}

impl View for NvmeController {
    type V = Nvme;

    open spec fn view(&self) -> Nvme {
        Nvme {
            id: self.id@,
            admin: self.admin_queue,
            io: self.io_queues@,
            cc_en: self.cc_en,
            cc: self.cc,
            intms: self.intms,
            capacity: self.namespace_capacity,
            readonly: self.disk_readonly,
            max_io: self.max_io_queues,
            asq_lo: self.asq_lo,
            asq_hi: self.asq_hi,
            acq_lo: self.acq_lo,
            acq_hi: self.acq_hi,
            ram: self.guest_memory@,
            msix_cap: self.msix_cap,
            msix_reg: self.msix_cap_reg_idx,
            msix_masked: self.msix_masked,
            vectors_masked: self.vectors_masked@,
            interrupts: self.interrupts@,
            pending: match self.pending {
                None => None,
                Some(io) => Some(io@),
            },
            bar0_base: self.bar0_base,
        }
    }
}

/// How a command of an I/O queue goes on: with a status, or with a request to the disk.
enum IoNext {
    Status(u16),
    Disk(DiskRequest),
}

/// What became of the next command of an I/O queue: nothing was there, it is completed, or it
/// waits for the disk.
enum IoTurn {
    Stopped,
    Finished,
    Waits(NvmeSqe, DiskRequest),
}

impl IoNext {
    spec fn outcome(self) -> IoOutcome {
        match self {
            IoNext::Status(status) => IoOutcome::Status(status),
            IoNext::Disk(request) => IoOutcome::Disk(request@),
        }
    }
}

/// The value of a write of up to four bytes, or of the first four of a longer one.
fn get_value32(data: &[u8]) -> (r: u32)
    ensures
        r == value32(data@),
{
    let length: usize = data.len();
    let b0: u8 = if length > 0 {
        data[0]
    } else {
        0
    };
    let b1: u8 = if length > 1 {
        data[1]
    } else {
        0
    };
    let b2: u8 = if length > 2 {
        data[2]
    } else {
        0
    };
    let b3: u8 = if length > 3 {
        data[3]
    } else {
        0
    };
    let ghost padded = data@ + crate::bytes::zeros(4);
    assert(padded[0] == b0 && padded[1] == b1 && padded[2] == b2 && padded[3] == b3);
    b0 as u32 + 0x100 * (b1 as u32) + 0x1_0000 * (b2 as u32) + 0x100_0000 * (b3 as u32)
}

/// The value of a write of up to two bytes, or of the first two of a longer one.
fn get_value16(data: &[u8]) -> (r: u16)
    ensures
        r == value16(data@),
{
    let length: usize = data.len();
    let b0: u8 = if length > 0 {
        data[0]
    } else {
        0
    };
    let b1: u8 = if length > 1 {
        data[1]
    } else {
        0
    };
    let ghost padded = data@ + crate::bytes::zeros(2);
    assert(padded[0] == b0 && padded[1] == b1);
    b0 as u16 + 0x100 * (b1 as u16)
}

/// Puts bytes at the front of `data`.
fn put_front(data: &mut [u8], bytes: &[u8])
    requires
        bytes@.len() <= old(data)@.len(),
    ensures
        final(data)@ == crate::bytes::overlay(old(data)@, 0, bytes@),
{
    let ghost before = data@;
    let mut i: usize = 0;
    while i < bytes.len()
        invariant
            i <= bytes@.len(),
            bytes@.len() <= data@.len(),
            data@.len() == before.len(),
            forall|k: int| 0 <= k < i ==> data@[k] == bytes@[k],
            forall|k: int| i <= k < data@.len() ==> data@[k] == before[k],
        decreases bytes@.len() - i,
    {
        data[i] = bytes[i];
        i = i + 1;
    }
    assert(data@ =~= crate::bytes::overlay(before, 0, bytes@));
}

fn read_reg64(value: u64, rel: usize, data: &mut [u8])
    requires
        rel < 8,
    ensures
        final(data)@ == reg64_read(value, rel as int, old(data)@),
{
    let mut bytes: Vec<u8> = Vec::new();
    push_le64(&mut bytes, value);
    assert(bytes@ =~= crate::bytes::le64_bytes(value));
    let length: usize = data.len();
    if rel == 0 && length >= 8 {
        put_front(data, &bytes);
    } else if rel == 0 && length >= 4 {
        let half = range_of(&bytes, 0, 4);
        assert(half@ =~= bytes@.take(4));
        put_front(data, &half);
    } else if rel == 4 && length >= 4 {
        let half = range_of(&bytes, 4, 8);
        assert(half@ =~= bytes@.skip(4));
        put_front(data, &half);
    } else {
        let count: usize = if length <= 8 - rel {
            length
        } else {
            8 - rel
        };
        let part = range_of(&bytes, rel, rel + count);
        put_front(data, &part);
        assert(data@ =~= reg64_read(value, rel as int, old(data)@));
    }
}

fn read_reg32(value: u32, data: &mut [u8])
    ensures
        final(data)@ == reg32_read(value, old(data)@),
{
    if data.len() >= 4 {
        let mut bytes: Vec<u8> = Vec::new();
        push_le32(&mut bytes, value);
        assert(bytes@ =~= crate::bytes::le32_bytes(value));
        put_front(data, &bytes);
    }
}

fn clear(data: &mut [u8])
    ensures
        final(data)@ == crate::bytes::zeros(old(data)@.len()),
{
    let length: usize = data.len();
    let mut i: usize = 0;
    while i < length
        invariant
            i <= length,
            length == data@.len(),
            forall|k: int| 0 <= k < i ==> data@[k] == 0,
        decreases length - i,
    {
        data[i] = 0;
        i = i + 1;
    }
    assert(data@ =~= crate::bytes::zeros(length as nat));
}

fn size_after(value: u16) -> (r: u16)
    ensures
        r == next16(value),
{
    value.saturating_add(1)
}

impl NvmeController {
    pub fn new(
        id: String,
        disk_size: u64,
        disk_readonly: bool,
        guest_memory: SharedMemory,
        num_vcpus: u32,
        msix_cap_reg_idx: Option<usize>,
    ) -> (r: NvmeController)
        ensures
            r@.valid(),
            r@ == Nvme::fresh(
                id@,
                disk_size,
                disk_readonly,
                crate::ram::Ram::fresh(guest_memory),
                num_vcpus,
                msix_cap_reg_idx,
            ),
    {
        let vcpus: u16 = num_vcpus as u16;
        let max_io_queues: u16 = if vcpus <= NVME_MAX_IO_QUEUES {
            vcpus
        } else {
            NVME_MAX_IO_QUEUES
        };
        let mut io_queues: Vec<NvmeQueue> = Vec::new();
        let mut vectors_masked: Vec<bool> = Vec::new();
        vectors_masked.push(true);
        let mut i: u16 = 0;
        while i < max_io_queues
            invariant
                i <= max_io_queues,
                io_queues@ == Seq::new(i as nat, |k: int| NvmeQueue::unused()),
                vectors_masked@ == Seq::new((i + 1) as nat, |k: int| true),
            decreases max_io_queues - i,
        {
            io_queues.push(NvmeQueue::new());
            vectors_masked.push(true);
            i = i + 1;
        }
        let mut admin_queue = NvmeQueue::new();
        admin_queue.cq_phase = true;
        NvmeController {
            id,
            admin_queue,
            io_queues,
            cc_en: false,
            cc: 0,
            intms: 0,
            namespace_capacity: disk_size / LBA_SIZE,
            disk_readonly,
            max_io_queues,
            asq_lo: 0,
            asq_hi: 0,
            acq_lo: 0,
            acq_hi: 0,
            guest_memory: GuestRam::new(guest_memory),
            msix_cap: MsixCap::new(max_io_queues + 1),
            msix_cap_reg_idx,
            msix_masked: true,
            vectors_masked,
            interrupts: Vec::new(),
            pending: None,
            bar0_base: None,
        }
    }

    fn bar_region(&self, offset: u64) -> (r: BarRegion)
        ensures
            r == self@.region(offset),
    {
        if offset < DBL_BASE_OFFSET {
            return BarRegion::Register;
        }
        let vectors: u64 = self.msix_cap.table_size() as u64;
        let table: u64 = self.msix_cap.table_offset();
        let pba: u64 = self.msix_cap.pba_offset();
        if table <= offset && offset < table + 16 * vectors {
            BarRegion::MsixTable(offset - table)
        } else if pba <= offset && offset < pba + 8 * (vectors / 64 + 1) {
            BarRegion::MsixPba(offset - pba)
        } else {
            BarRegion::Doorbell
        }
    }

    fn read_register(&self, offset: u64, data: &mut [u8])
        requires
            self@.valid(),
        ensures
            final(data)@ == self@.register_read(offset, old(data)@),
    {
        if offset < CAP_OFFSET + 8 {
            read_reg64(CAP_VALUE, (offset - CAP_OFFSET) as usize, data);
        } else if ASQ_OFFSET <= offset && offset < ASQ_OFFSET + 8 {
            let address: u64 = self.admin_queue.sq_addr.unwrap_or(0);
            read_reg64(address, (offset - ASQ_OFFSET) as usize, data);
        } else if ACQ_OFFSET <= offset && offset < ACQ_OFFSET + 8 {
            let address: u64 = self.admin_queue.cq_addr.unwrap_or(0);
            read_reg64(address, (offset - ACQ_OFFSET) as usize, data);
        } else if offset == VS_OFFSET {
            read_reg32(VS_VALUE, data);
        } else if offset == INTMS_OFFSET || offset == INTMC_OFFSET {
            read_reg32(0, data);
        } else if offset == CC_OFFSET {
            read_reg32(self.cc, data);
        } else if offset == CSTS_OFFSET {
            let ready: u32 = if self.cc_en {
                1
            } else {
                0
            };
            read_reg32(ready, data);
        } else if offset == AQA_OFFSET {
            let sizes: u32 = if self.admin_queue.allocated {
                0x1_0001 * ((self.admin_queue.queue_size - 1) as u32)
            } else {
                0
            };
            read_reg32(sizes, data);
        } else {
            clear(data);
        }
    }

    fn configure(&mut self, cc: u32)
        requires
            old(self)@.valid(),
            old(self)@.pending is None,
        ensures
            final(self)@.valid(),
            final(self)@ == old(self)@.configured(cc),
    {
        let enable = cc % 2 != 0;
        self.cc = cc;
        if self.cc_en && !enable {
            self.admin_queue.sq_head = 0;
            self.admin_queue.sq_tail = 0;
            self.admin_queue.cq_tail = 0;
            self.admin_queue.cq_phase = true;
            let count: usize = self.io_queues.len();
            let mut queues: Vec<NvmeQueue> = Vec::new();
            let mut i: usize = 0;
            while i < count
                invariant
                    i <= count,
                    queues@ == Seq::new(i as nat, |k: int| NvmeQueue::unused()),
                decreases count - i,
            {
                queues.push(NvmeQueue::new());
                i = i + 1;
            }
            self.io_queues = queues;
        }
        self.cc_en = enable;
    }

    fn write_asq(&mut self, rel: u64, data: &[u8])
        requires
            old(self)@.valid(),
        ensures
            final(self)@.valid(),
            final(self)@ == old(self)@.asq_written(rel as int, data@),
    {
        if data.len() == 8 && rel == 0 {
            self.admin_queue.sq_addr = Some(get_le64(data, 0));
        } else {
            if rel == 0 {
                self.asq_lo = get_value32(data);
            } else {
                self.asq_hi = get_value32(data);
            }
            let address: u64 = 0x1_0000_0000 * (self.asq_hi as u64) + self.asq_lo as u64;
            if address != 0 {
                self.admin_queue.sq_addr = Some(address);
            }
        }
    }

    fn write_acq(&mut self, rel: u64, data: &[u8])
        requires
            old(self)@.valid(),
        ensures
            final(self)@.valid(),
            final(self)@ == old(self)@.acq_written(rel as int, data@),
    {
        if data.len() == 8 && rel == 0 {
            self.admin_queue.cq_addr = Some(get_le64(data, 0));
        } else {
            if rel == 0 {
                self.acq_lo = get_value32(data);
            } else {
                self.acq_hi = get_value32(data);
            }
            let address: u64 = 0x1_0000_0000 * (self.acq_hi as u64) + self.acq_lo as u64;
            if address != 0 {
                self.admin_queue.cq_addr = Some(address);
            }
        }
    }

    /// Writes a register.
    pub fn write_register(&mut self, offset: u64, data: &[u8])
        requires
            old(self)@.valid(),
            old(self)@.pending is None,
        ensures
            final(self)@.valid(),
            final(self)@ == old(self)@.register_written(offset, data@),
    {
        let value: u32 = get_value32(data);
        if offset == CC_OFFSET {
            self.configure(value);
        } else if offset == INTMS_OFFSET {
            self.intms = self.intms | value;
        } else if offset == INTMC_OFFSET {
            self.intms = self.intms & !value;
        } else if offset == AQA_OFFSET {
            let sqs: u16 = size_after((value % 0x1_0000) as u16);
            let cqs: u16 = size_after((value / 0x1_0000) as u16);
            self.admin_queue.queue_size = if sqs >= cqs {
                sqs
            } else {
                cqs
            };
        } else if ASQ_OFFSET <= offset && offset <= ASQ_OFFSET + 4 {
            self.write_asq(offset - ASQ_OFFSET, data);
        } else if ACQ_OFFSET <= offset && offset <= ACQ_OFFSET + 4 {
            self.write_acq(offset - ACQ_OFFSET, data);
        }
    }

    fn queue(&self, id: u16) -> (r: NvmeQueue)
        requires
            self@.valid(),
            id <= self@.max_io,
        ensures
            r == self@.queue(id),
            r.valid(),
    {
        if id == 0 {
            self.admin_queue
        } else {
            let queue = self.io_queues[id as usize - 1];
            assert(self@.io[id - 1].valid());
            queue
        }
    }

    fn set_queue(&mut self, id: u16, queue: NvmeQueue)
        requires
            old(self)@.valid(),
            id <= old(self)@.max_io,
            queue.valid(),
            old(self)@.pending is Some ==> queue.queue_size > 0,
        ensures
            final(self)@.valid(),
            final(self)@ == old(self)@.with_queue(id, queue),
    {
        if id == 0 {
            self.admin_queue = queue;
        } else {
            self.io_queues.set(id as usize - 1, queue);
        }
    }

    fn is_masked(&self, id: u16) -> (r: bool)
        requires
            self@.valid(),
            id <= self@.max_io,
        ensures
            r == self@.interrupt_masked(id),
    {
        self.msix_masked || self.vectors_masked[id as usize] || self.intms & (1u32 << (id % 32) as u32)
            == 0
    }

    /// Puts a completion into a queue, with its interrupt.
    pub fn enqueue_completion(
        &mut self,
        id: u16,
        cid: u16,
        status: u16,
        sq_id: u16,
        result: u32,
    )
        requires
            old(self)@.valid(),
            id <= old(self)@.max_io,
            old(self)@.queue(id).queue_size > 0,
            status < 0x8000,
        ensures
            final(self)@.valid(),
            final(self)@.ram.settled(),
            final(self)@.ram.follows(old(self)@.ram),
            forall|answers: RamAnswers| #[trigger]
                final(self)@.ram.agrees(answers) ==> final(self)@.under(answers)
                    == old(self)@.under(answers).completed(id, cid, status, sq_id, result),
    {
        let mut queue = self.queue(id);
        let base: u64 = match queue.cq_addr {
            None => {
                return;
            },
            Some(base) => base,
        };
        let slot: u64 = 16 * ((queue.cq_tail % queue.queue_size) as u64);
        let address: u64 = match base.checked_add(slot) {
            None => {
                return;
            },
            Some(address) => address,
        };
        let entry = NvmeCqe::new(cid, queue.cq_phase, status, sq_id, 0, result);
        let bytes = entry.to_bytes();
        if self.guest_memory.write_present(address, &bytes).is_none() {
            return;
        }
        queue.put_completion();
        self.set_queue(id, queue);
        if !self.is_masked(id) {
            self.interrupts.push(id);
        }
    }

    fn fetch(&mut self, memory: &Mapped, id: u16) -> (r: Option<NvmeSqe>)
        requires
            old(self)@.valid(),
            id <= old(self)@.max_io,
        ensures
            final(self)@ == (Nvme { ram: final(self)@.ram, ..old(self)@ }),
            final(self)@.valid(),
            final(self)@.ram.follows(old(self)@.ram),
            forall|answers: RamAnswers| #[trigger]
                final(self)@.ram.agrees(answers) ==> (final(self)@.under(answers), r)
                    == old(self)@.under(answers).fetched(*memory, id),
            r is Some ==> old(self)@.queue(id).queue_size > 0,
    {
        let queue = self.queue(id);
        let base: u64 = match queue.sq_addr {
            None => {
                return None;
            },
            Some(base) => base,
        };
        if queue.queue_size == 0 {
            return None;
        }
        let place: u64 = 64 * ((queue.sq_head % queue.queue_size) as u64);
        let address: u64 = match base.checked_add(place) {
            None => {
                return None;
            },
            Some(address) => address,
        };
        match self.guest_memory.read(memory, address, 64) {
            None => None,
            Some((_, bytes)) => Some(parse_sqe(&bytes)),
        }
    }

    fn finish(&mut self, id: u16, sqe: &NvmeSqe, status: u16)
        requires
            old(self)@.valid(),
            id <= old(self)@.max_io,
            old(self)@.queue(id).queue_size > 0,
            status < 0x8000,
            old(self)@.pending is None,
        ensures
            final(self)@.valid(),
            final(self)@.ram.follows(old(self)@.ram),
            forall|answers: RamAnswers| #[trigger]
                final(self)@.ram.agrees(answers) ==> final(self)@.under(answers)
                    == old(self)@.under(answers).finished(id, *sqe, status),
    {
        let mut queue = self.queue(id);
        queue.take_command();
        self.set_queue(id, queue);
        self.enqueue_completion(id, sqe.command_id(), status, id, 0);
    }

    fn admin_identify(&mut self, sqe: &NvmeSqe) -> (r: u16)
        requires
            old(self)@.valid(),
        ensures
            r < 0x8000,
            final(self)@ == (Nvme { ram: final(self)@.ram, ..old(self)@ }),
            final(self)@.valid(),
            final(self)@.ram.follows(old(self)@.ram),
            forall|answers: RamAnswers| #[trigger]
                final(self)@.ram.agrees(answers) ==> (final(self)@.under(answers), r)
                    == old(self)@.under(answers).identify_done(*sqe),
    {
        if sqe.prp1() == 0 {
            return NVME_SC_INVALID_FIELD;
        }
        let cns: u32 = sqe.cdw10 % 0x100;
        let page = match cns {
            0 | 4 => identify_namespace(self.namespace_capacity),
            1 => identify_controller(self.namespace_capacity),
            2 => {
                if sqe.nsid != 0 && sqe.nsid != 1 {
                    return NVME_SC_INVALID_NS;
                }
                identify_namespace(self.namespace_capacity)
            },
            3 => identify_namespace_list(),
            _ => {
                return NVME_SC_INVALID_FIELD;
            },
        };
        match write_prp(&mut self.guest_memory, sqe.prp1(), sqe.prp2(), &page) {
            Ok(()) => NVME_SC_SUCCESS,
            Err(_) => NVME_SC_INTERNAL_ERROR,
        }
    }

    fn admin_create_sq(&mut self, sqe: &NvmeSqe) -> (r: u16)
        requires
            old(self)@.valid(),
            old(self)@.pending is None,
        ensures
            final(self)@.valid(),
            (final(self)@, r) == old(self)@.sq_created(*sqe),
    {
        let id: u16 = (sqe.cdw10 % 0x1_0000) as u16;
        let size: u16 = (sqe.cdw10 / 0x1_0000) as u16;
        if id == 0 || id > self.max_io_queues {
            return NVME_SC_INVALID_FIELD;
        }
        let mut queue = self.queue(id);
        if queue.allocated || sqe.cdw11 / 0x1_0000 != id as u32 || size == u16::MAX {
            return NVME_SC_INVALID_FIELD;
        }
        queue.sq_addr = Some(sqe.prp1());
        queue.queue_size = size + 1;
        queue.allocated = true;
        queue.cq_phase = sqe.cdw11 % 2 != 0;
        self.set_queue(id, queue);
        NVME_SC_SUCCESS
    }

    fn admin_create_cq(&mut self, sqe: &NvmeSqe) -> (r: u16)
        requires
            old(self)@.valid(),
            old(self)@.pending is None,
        ensures
            final(self)@.valid(),
            (final(self)@, r) == old(self)@.cq_created(*sqe),
    {
        let id: u16 = (sqe.cdw10 % 0x1_0000) as u16;
        let size: u16 = (sqe.cdw10 / 0x1_0000) as u16;
        if id == 0 || id > self.max_io_queues || size == u16::MAX {
            return NVME_SC_INVALID_FIELD;
        }
        let mut queue = self.queue(id);
        queue.cq_addr = Some(sqe.prp1());
        queue.queue_size = size + 1;
        queue.cq_phase = sqe.cdw11 % 2 != 0;
        self.set_queue(id, queue);
        NVME_SC_SUCCESS
    }

    fn admin_delete_sq(&mut self, sqe: &NvmeSqe) -> (r: u16)
        requires
            old(self)@.valid(),
            old(self)@.pending is None,
        ensures
            final(self)@.valid(),
            (final(self)@, r) == old(self)@.sq_deleted(*sqe),
    {
        let id: u16 = sqe.command_id();
        if id == 0 || id > self.max_io_queues {
            return NVME_SC_INVALID_FIELD;
        }
        if !self.queue(id).allocated {
            return NVME_SC_INVALID_FIELD;
        }
        self.set_queue(id, NvmeQueue::new());
        NVME_SC_SUCCESS
    }

    fn handle_admin_command(&mut self, sqe: &NvmeSqe) -> (r: u16)
        requires
            old(self)@.valid(),
            old(self)@.pending is None,
        ensures
            final(self)@.valid(),
            final(self)@.ram.follows(old(self)@.ram),
            forall|answers: RamAnswers| #[trigger]
                final(self)@.ram.agrees(answers) ==> (final(self)@.under(answers), r)
                    == old(self)@.under(answers).admin_done(*sqe),
            final(self)@.admin == old(self)@.admin,
            final(self)@.pending is None,
            r < 0x8000,
    {
        match sqe.opcode() {
            NVME_ADMIN_DELETE_SQ => self.admin_delete_sq(sqe),
            NVME_ADMIN_CREATE_SQ => self.admin_create_sq(sqe),
            NVME_ADMIN_CREATE_CQ => self.admin_create_cq(sqe),
            NVME_ADMIN_IDENTIFY => self.admin_identify(sqe),
            NVME_ADMIN_GET_LOG_PAGE | NVME_ADMIN_GET_FEATURES | NVME_ADMIN_SET_FEATURES
            | NVME_ADMIN_ABORT_CMD | NVME_ADMIN_ASYNC_EVENT_REQ => NVME_SC_SUCCESS,
            _ => NVME_SC_INVALID_OPCODE,
        }
    }

    fn step_admin_queue(&mut self, memory: &Mapped) -> (r: bool)
        requires
            old(self)@.valid(),
            old(self)@.pending is None,
        ensures
            final(self)@.valid(),
            final(self)@.pending is None,
            final(self)@.ram.follows(old(self)@.ram),
            forall|answers: RamAnswers| #[trigger]
                final(self)@.ram.agrees(answers) ==> (final(self)@.under(answers), r)
                    == old(self)@.under(answers).admin_stepped(*memory),
    {
        match self.fetch(memory, 0) {
            None => false,
            Some(sqe) => {
                let status: u16 = self.handle_admin_command(&sqe);
                self.finish(0, &sqe, status);
                true
            },
        }
    }

    /// Processes up to `count` commands of the admin queue.
    #[verifier::spinoff_prover]
    fn process_admin_queue(&mut self, count: u16)
        requires
            old(self)@.valid(),
            old(self)@.pending is None,
        ensures
            final(self)@.valid(),
            final(self)@.pending is None,
            final(self)@.ram.follows(old(self)@.ram),
            forall|answers: RamAnswers| #[trigger]
                final(self)@.ram.agrees(answers) ==> final(self)@.under(answers)
                    == old(self)@.under(answers).admin_processed(count as nat),
    {
        let memory = self.guest_memory.load();
        let mut left: u16 = count;
        while left > 0 && self.admin_queue.sq_head != self.admin_queue.sq_tail
            invariant
                self@.valid(),
                self@.pending is None,
                left <= count,
                self@.ram.follows(old(self)@.ram),
                forall|answers: RamAnswers| #[trigger]
                    self@.ram.agrees(answers) ==> old(self)@.under(answers).admin_processed(
                        count as nat,
                    ) == self@.under(answers).admin_drained(*memory, left as nat),
            decreases left,
        {
            let ghost before = self@;
            let more = self.step_admin_queue(&memory);
            proof {
                assert forall|answers: RamAnswers| #[trigger] self@.ram.agrees(answers) implies old(
                    self,
                )@.under(answers).admin_processed(count as nat) == (if more {
                    self@.under(answers).admin_drained(*memory, (left - 1) as nat)
                } else {
                    self@.under(answers)
                }) by {
                    lemma_admin_turn(
                        before.under(answers),
                        self@.under(answers),
                        *memory,
                        left as nat,
                        more,
                    );
                }
            }
            if !more {
                return;
            }
            left = left - 1;
        }
    }

    /// Reads and writes start at a block that lies on the disk, with all their blocks.
    fn is_on_disk(&self, sqe: &NvmeSqe) -> (r: bool)
        ensures
            r == self@.on_disk(*sqe),
    {
        let slba: u64 = sqe.cdw10 as u64 + 0x1_0000_0000 * (sqe.cdw11 as u64);
        let blocks: u64 = (sqe.cdw12 % 0x1_0000) as u64 + 1;
        blocks <= self.namespace_capacity && slba <= self.namespace_capacity - blocks
    }

    fn handle_io_command(&mut self, sqe: &NvmeSqe) -> (r: IoNext)
        requires
            old(self)@.valid(),
        ensures
            final(self)@ == (Nvme { ram: final(self)@.ram, ..old(self)@ }),
            final(self)@.valid(),
            final(self)@.ram.follows(old(self)@.ram),
            forall|answers: RamAnswers| #[trigger]
                final(self)@.ram.agrees(answers) ==> (final(self)@.under(answers), r.outcome())
                    == old(self)@.under(answers).io_done(*sqe),
            final(self)@.io == old(self)@.io,
            final(self)@.pending == old(self)@.pending,
            r matches IoNext::Status(status) ==> status < 0x8000,
    {
        let opcode: u8 = sqe.opcode();
        if opcode == NVME_CMD_FLUSH {
            return if self.disk_readonly {
                IoNext::Status(NVME_SC_SUCCESS)
            } else {
                IoNext::Disk(DiskRequest::Flush)
            };
        }
        if opcode != NVME_CMD_READ && opcode != NVME_CMD_WRITE {
            return IoNext::Status(NVME_SC_INVALID_OPCODE);
        }
        if opcode == NVME_CMD_WRITE && self.disk_readonly {
            return IoNext::Status(NVME_SC_INVALID_FIELD);
        }
        if sqe.nsid != 0 && sqe.nsid != 1 {
            return IoNext::Status(NVME_SC_INVALID_NS);
        }
        if !self.is_on_disk(sqe) {
            return IoNext::Status(NVME_SC_INVALID_FIELD);
        }
        let slba: u64 = sqe.cdw10 as u64 + 0x1_0000_0000 * (sqe.cdw11 as u64);
        let blocks: u64 = (sqe.cdw12 % 0x1_0000) as u64 + 1;
        let offset: u64 = slba * LBA_SIZE;
        let length: u64 = blocks * LBA_SIZE;
        if opcode == NVME_CMD_READ {
            return IoNext::Disk(DiskRequest::Read { offset, length });
        }
        match read_prp(&mut self.guest_memory, sqe.prp1(), sqe.prp2(), length as usize) {
            Err(_) => IoNext::Status(NVME_SC_INTERNAL_ERROR),
            Ok(data) => IoNext::Disk(DiskRequest::Write { offset, data }),
        }
    }

    #[verifier::spinoff_prover]
    fn step_io_queue(&mut self, memory: &Mapped, id: u16, count: u16) -> (r: IoTurn)
        requires
            old(self)@.valid(),
            old(self)@.pending is None,
            1 <= id <= old(self)@.max_io,
            count > 0,
        ensures
            final(self)@.valid(),
            final(self)@.pending is None,
            final(self)@.max_io == old(self)@.max_io,
            r is Waits ==> final(self)@.io[id - 1].queue_size > 0,
            final(self)@.ram.follows(old(self)@.ram),
            forall|answers: RamAnswers| #[trigger]
                final(self)@.ram.agrees(answers) ==> turned(
                    final(self)@.under(answers),
                    *memory,
                    id,
                    count as nat,
                    r,
                ) == old(self)@.under(answers).io_stepped(*memory, id, count as nat),
    {
        let sqe = match self.fetch(memory, id) {
            None => {
                return IoTurn::Stopped;
            },
            Some(sqe) => sqe,
        };
        match self.handle_io_command(&sqe) {
            IoNext::Status(status) => {
                self.finish(id, &sqe, status);
                IoTurn::Finished
            },
            IoNext::Disk(request) => IoTurn::Waits(sqe, request),
        }
    }

    /// Processes up to `count` commands of an I/O queue, up to one that needs the disk. They
    /// are read from one memory.
    #[verifier::spinoff_prover]
    fn drain_io_queue(&mut self, memory: Arc<Mapped>, id: u16, count: u16) -> (r: Option<
        DiskRequest,
    >)
        requires
            old(self)@.valid(),
            old(self)@.pending is None,
            1 <= id <= old(self)@.max_io,
        ensures
            final(self)@.valid(),
            final(self)@.ram.follows(old(self)@.ram),
            forall|answers: RamAnswers| #[trigger]
                final(self)@.ram.agrees(answers) ==> (final(self)@.under(answers), request_view(r))
                    == old(self)@.under(answers).io_drained(*memory, id, count as nat),
    {
        let index: usize = id as usize - 1;
        let mut left: u16 = count;
        while left > 0 && self.io_queues[index].sq_head != self.io_queues[index].sq_tail
            invariant
                self@.valid(),
                self@.pending is None,
                index == id - 1,
                1 <= id <= self@.max_io,
                left <= count,
                self@.ram.follows(old(self)@.ram),
                forall|answers: RamAnswers| #[trigger]
                    self@.ram.agrees(answers) ==> old(self)@.under(answers).io_drained(
                        *memory,
                        id,
                        count as nat,
                    ) == self@.under(answers).io_drained(*memory, id, left as nat),
            decreases left,
        {
            let ghost before = self@;
            let turn = self.step_io_queue(&memory, id, left);
            proof {
                assert forall|answers: RamAnswers| #[trigger] self@.ram.agrees(answers) implies old(
                    self,
                )@.under(answers).io_drained(*memory, id, count as nat) == rest_drained(
                    self@.under(answers),
                    *memory,
                    id,
                    left as nat,
                    turn,
                ) by {
                    lemma_io_turn(
                        before.under(answers),
                        self@.under(answers),
                        *memory,
                        id,
                        left as nat,
                        turn,
                    );
                }
            }
            match turn {
                IoTurn::Stopped => {
                    return None;
                },
                IoTurn::Finished => {
                    left = left - 1;
                },
                IoTurn::Waits(sqe, request) => {
                    self.pending = Some(PendingIo { sqid: id, sqe, left: left - 1, memory });
                    return Some(request);
                },
            }
        }
        None
    }

    /// Processes up to `count` commands of an I/O queue, up to one that needs the disk.
    fn process_io_queue(&mut self, id: u16, count: u16) -> (r: Option<DiskRequest>)
        requires
            old(self)@.valid(),
            old(self)@.pending is None,
            1 <= id <= old(self)@.max_io,
        ensures
            final(self)@.valid(),
            final(self)@.ram.follows(old(self)@.ram),
            forall|answers: RamAnswers| #[trigger]
                final(self)@.ram.agrees(answers) ==> (final(self)@.under(answers), request_view(r))
                    == old(self)@.under(answers).io_processed(id, count as nat),
    {
        let memory = self.guest_memory.load();
        self.drain_io_queue(memory, id, count)
    }

    /// Takes the outcome of a disk request: nothing where it failed, or else what was read.
    /// The command is completed, and the next request of its queue comes back.
    pub fn disk_done(&mut self, reply: Option<Vec<u8>>) -> (r: Option<DiskRequest>)
        requires
            old(self)@.valid(),
        ensures
            final(self)@.valid(),
            final(self)@.ram.follows(old(self)@.ram),
            final(self)@.ram.settled(),
            forall|answers: RamAnswers| #[trigger]
                final(self)@.ram.agrees(answers) ==> (final(self)@.under(answers), request_view(r))
                    == old(self)@.under(answers).disk_finished(reply_view(reply)),
    {
        let mut pending: Option<PendingIo> = None;
        std::mem::swap(&mut pending, &mut self.pending);
        let io = match pending {
            None => {
                return None;
            },
            Some(io) => io,
        };
        let status: u16 = match reply {
            None => NVME_SC_INTERNAL_ERROR,
            Some(data) => {
                if io.sqe.opcode() == NVME_CMD_READ {
                    self.deliver_read(&io.sqe, &data);
                }
                NVME_SC_SUCCESS
            },
        };
        self.finish(io.sqid, &io.sqe, status);
        self.drain_io_queue(io.memory, io.sqid, io.left)
    }

    fn deliver_read(&mut self, sqe: &NvmeSqe, data: &[u8])
        ensures
            final(self)@ == (Nvme { ram: final(self)@.ram, ..old(self)@ }),
            final(self)@.ram.follows(old(self)@.ram),
            forall|answers: RamAnswers| #[trigger]
                final(self)@.ram.agrees(answers) ==> final(self)@.under(answers) == (Nvme {
                    ram: read_delivered(old(self)@.under(answers).ram, *sqe, data@),
                    ..old(self)@.under(answers)
                }),
    {
        match write_prp(&mut self.guest_memory, sqe.prp1(), sqe.prp2(), data) {
            Ok(()) => {},
            Err(_) => {
                let room: u64 = prp_capacity(sqe.prp1(), sqe.prp2());
                let kept: usize = if room <= data.len() as u64 {
                    room as usize
                } else {
                    data.len()
                };
                if kept > 0 {
                    let part = range_of(data, 0, kept);
                    assert(part@ =~= data@.take(kept as int));
                    let _ = write_prp(&mut self.guest_memory, sqe.prp1(), sqe.prp2(), &part);
                }
            },
        }
    }

    fn process_sq_doorbell(&mut self, sqid: u16, new_tail: u16) -> (r: Option<DiskRequest>)
        requires
            old(self)@.valid(),
            old(self)@.pending is None,
        ensures
            final(self)@.valid(),
            final(self)@.ram.follows(old(self)@.ram),
            forall|answers: RamAnswers| #[trigger]
                final(self)@.ram.agrees(answers) ==> (final(self)@.under(answers), request_view(r))
                    == old(self)@.under(answers).sq_doorbell(sqid, new_tail),
    {
        if !self.cc_en || sqid > self.max_io_queues {
            return None;
        }
        let mut queue = self.queue(sqid);
        let placed = queue.sq_addr.is_some() && queue.cq_addr.is_some();
        let size: u16 = queue.queue_size;
        if sqid == 0 {
            if !placed || size == 0 {
                return None;
            }
        } else if !queue.allocated {
            return None;
        }
        queue.sq_tail = new_tail;
        self.set_queue(sqid, queue);
        if sqid == 0 {
            self.process_admin_queue(size);
            None
        } else if !placed {
            None
        } else {
            self.process_io_queue(sqid, size)
        }
    }

    /// Reads the registers.
    pub fn read(&self, offset: u64, data: &mut [u8]) -> (r: BarRead)
        requires
            self@.valid(),
        ensures
            (final(data)@, r) == self@.bar_read(offset, old(data)@),
    {
        match self.bar_region(offset) {
            BarRegion::Register => {
                self.read_register(offset, data);
                BarRead::Done
            },
            BarRegion::MsixTable(rel) => BarRead::MsixTable(rel),
            BarRegion::MsixPba(rel) => BarRead::MsixPba(rel),
            BarRegion::Doorbell => {
                clear(data);
                BarRead::Done
            },
        }
    }

    /// Writes the registers. No disk request may be open.
    #[verifier::rlimit(40)]
    pub fn write(&mut self, offset: u64, data: &[u8]) -> (r: BarWrite)
        requires
            old(self)@.valid(),
            old(self)@.pending is None,
            offset < DBL_BASE_OFFSET ==> data@.len() > 0,
        ensures
            final(self)@.valid(),
            final(self)@.ram.follows(old(self)@.ram),
            final(self)@.ram.settled(),
            forall|answers: RamAnswers| #[trigger]
                final(self)@.ram.agrees(answers) ==> (final(self)@.under(answers), r@)
                    == old(self)@.under(answers).bar_written(offset, data@),
    {
        match self.bar_region(offset) {
            BarRegion::Register => {
                self.write_register(offset, data);
                proof {
                    assert forall|answers: RamAnswers| #[trigger]
                        self@.ram.agrees(answers) implies self@.under(answers) == old(self)@.under(
                        answers,
                    ).register_written(offset, data@) by {
                        lemma_registers_aside(old(self)@, answers, offset, data@);
                    }
                }
                BarWrite::Done
            },
            BarRegion::MsixTable(rel) => BarWrite::MsixTable(rel),
            BarRegion::MsixPba(rel) => BarWrite::MsixPba(rel),
            BarRegion::Doorbell => {
                let doorbell: u64 = offset - DBL_BASE_OFFSET;
                let value: u16 = get_value16(data);
                if doorbell % DBL_STRIDE < 4 {
                    match self.process_sq_doorbell((doorbell / DBL_STRIDE) as u16, value) {
                        None => BarWrite::Done,
                        Some(request) => BarWrite::Disk(request),
                    }
                } else {
                    BarWrite::Done
                }
            },
        }
    }

    fn lies_at(&self, base: u64) -> (r: bool)
        ensures
            r == (self@.bar0_base == Some(base)),
    {
        match self.bar0_base {
            None => false,
            Some(bar0) => bar0 == base,
        }
    }

    /// Reads the registers, if they lie at `base`.
    pub fn read_bar(&self, base: u64, offset: u64, data: &mut [u8]) -> (r: BarRead)
        requires
            self@.valid(),
        ensures
            (final(data)@, r) == (if self@.bar0_base == Some(base) {
                self@.bar_read(offset, old(data)@)
            } else {
                (crate::bytes::zeros(old(data)@.len()), BarRead::Done)
            }),
    {
        if self.lies_at(base) {
            self.read(offset, data)
        } else {
            clear(data);
            BarRead::Done
        }
    }

    /// Writes the registers, if they lie at `base`.
    pub fn write_bar(&mut self, base: u64, offset: u64, data: &[u8]) -> (r: BarWrite)
        requires
            old(self)@.valid(),
            old(self)@.pending is None,
            offset < DBL_BASE_OFFSET ==> data@.len() > 0,
        ensures
            final(self)@.valid(),
            final(self)@.ram.follows(old(self)@.ram),
            final(self)@.ram.settled(),
            forall|answers: RamAnswers| #[trigger]
                final(self)@.ram.agrees(answers) ==> (final(self)@.under(answers), r@)
                    == (if old(self)@.under(answers).bar0_base == Some(base) {
                    old(self)@.under(answers).bar_written(offset, data@)
                } else {
                    (old(self)@.under(answers), BarAction::Done)
                }),
    {
        if self.lies_at(base) {
            self.write(offset, data)
        } else {
            BarWrite::Done
        }
    }

    /// Moves the registers to another address.
    pub fn move_bar(&mut self, new_base: u64)
        requires
            old(self)@.valid(),
        ensures
            final(self)@.valid(),
            final(self)@ == (Nvme { bar0_base: Some(new_base), ..old(self)@ }),
    {
        self.bar0_base = Some(new_base);
    }

    /// Follows a write to the configuration space that concerns the MSI-X capability.
    pub fn write_msix_capability(&mut self, reg_idx: usize, offset: u64, data: &[u8])
        requires
            old(self)@.valid(),
        ensures
            final(self)@.valid(),
            final(self)@ == old(self)@.capability_written(reg_idx, offset, data@),
    {
        if let Some(index) = self.msix_cap_reg_idx {
            if reg_idx == index {
                if offset == 2 && data.len() == 2 {
                    self.msix_cap.set_msg_ctl(get_le16(data, 0));
                } else if offset == 0 && data.len() == 4 {
                    self.msix_cap.set_msg_ctl((get_le32(data, 0) / 0x1_0000) as u16);
                }
            } else if offset == 0 && data.len() == 4 && reg_idx > index {
                if reg_idx - index == 1 {
                    self.msix_cap.table = get_le32(data, 0);
                } else if reg_idx - index == 2 {
                    self.msix_cap.pba = get_le32(data, 0);
                }
            }
        }
    }

    /// Follows the masks of MSI-X: that of the function and those of its vectors.
    pub fn set_masks(&mut self, function_masked: bool, vectors: Vec<bool>)
        requires
            old(self)@.valid(),
            vectors@.len() == old(self)@.max_io + 1,
        ensures
            final(self)@.valid(),
            final(self)@ == (Nvme {
                msix_masked: function_masked,
                vectors_masked: vectors@,
                ..old(self)@
            }),
    {
        self.msix_masked = function_masked;
        self.vectors_masked = vectors;
    }

    /// Takes the interrupts that are to be triggered, oldest first.
    pub fn take_interrupts(&mut self) -> (r: Vec<u16>)
        requires
            old(self)@.valid(),
        ensures
            final(self)@.valid(),
            r@ == old(self)@.interrupts,
            final(self)@ == (Nvme { interrupts: Seq::empty(), ..old(self)@ }),
    {
        let mut taken: Vec<u16> = Vec::new();
        taken.append(&mut self.interrupts);
        assert(taken@ =~= old(self)@.interrupts);
        taken
    }
}

/// Draining the admin queue is processing its next command, and then the rest.
proof fn lemma_admin_turn(before: Nvme, after: Nvme, memory: Mapped, n: nat, more: bool)
    requires
        n > 0,
        before.admin.sq_head != before.admin.sq_tail,
        (after, more) == before.admin_stepped(memory),
    ensures
        before.admin_drained(memory, n) == (if more {
            after.admin_drained(memory, (n - 1) as nat)
        } else {
            after
        }),
{
}

/// The state after the next command of a queue, and what became of the command. One that waits
/// for the disk is entered in the state.
spec fn turned(state: Nvme, memory: Mapped, id: u16, n: nat, turn: IoTurn) -> (Nvme, IoStep) {
    match turn {
        IoTurn::Stopped => (state, IoStep::Stopped),
        IoTurn::Finished => (state, IoStep::Finished),
        IoTurn::Waits(sqe, request) => (
            Nvme {
                pending: Some(Waiting { sqid: id, sqe, left: (n - 1) as u16, memory }),
                ..state
            },
            IoStep::Waits(request@),
        ),
    }
}

/// What is left to do after the next command of a queue.
spec fn rest_drained(state: Nvme, memory: Mapped, id: u16, n: nat, turn: IoTurn) -> (
    Nvme,
    Option<DiskOp>,
) {
    match turn {
        IoTurn::Stopped => (state, None),
        IoTurn::Finished => state.io_drained(memory, id, (n - 1) as nat),
        IoTurn::Waits(_, request) => (
            turned(state, memory, id, n, turn).0,
            Some(request@),
        ),
    }
}

/// Draining a queue is processing its next command, and then the rest.
proof fn lemma_io_turn(before: Nvme, after: Nvme, memory: Mapped, id: u16, n: nat, turn: IoTurn)
    requires
        n > 0,
        before.io[id - 1].sq_head != before.io[id - 1].sq_tail,
        turned(after, memory, id, n, turn) == before.io_stepped(memory, id, n),
    ensures
        before.io_drained(memory, id, n) == rest_drained(after, memory, id, n, turn),
{
}

/// The outcome of a disk request as a value.
pub open spec fn reply_view(reply: Option<Vec<u8>>) -> Option<Seq<u8>> {
    match reply {
        None => None,
        Some(data) => Some(data@),
    }
}

/// A request asks for nothing beyond the end of the disk, and for no change of a disk that is
/// read-only.
pub open spec fn request_allowed(state: Nvme, op: DiskOp) -> bool {
    match op {
        DiskOp::Read { offset, length } => offset + length <= state.capacity * LBA_SIZE,
        DiskOp::Write { offset, data } => !state.readonly && offset + data.len() <= state.capacity
            * LBA_SIZE,
        DiskOp::Flush => !state.readonly,
    }
}

proof fn lemma_command_request_allowed(state: Nvme, sqe: NvmeSqe)
    requires
        state.valid(),
    ensures
        state.io_done(sqe).1 matches IoOutcome::Disk(op) ==> request_allowed(state, op),
        state.io_done(sqe).0.capacity == state.capacity,
        state.io_done(sqe).0.readonly == state.readonly,
        state.io_done(sqe).0.io == state.io,
        state.io_done(sqe).0 == (Nvme { ram: state.io_done(sqe).0.ram, ..state }),
{
    let length = (sqe.blocks() * LBA_SIZE) as nat;
    crate::nvme::prp::transfers_are_whole(state.ram, sqe.prp1_spec(), sqe.prp2_spec(), length);
    assert(sqe.slba() + sqe.blocks() <= state.capacity ==> sqe.slba() * LBA_SIZE + sqe.blocks()
        * LBA_SIZE <= state.capacity * LBA_SIZE);
}

proof fn lemma_finishing_keeps_disk(state: Nvme, id: u16, sqe: NvmeSqe, status: u16)
    requires
        state.valid(),
        1 <= id <= state.max_io,
        state.queue(id).queue_size > 0,
        state.pending is None,
    ensures
        state.finished(id, sqe, status).valid(),
        state.finished(id, sqe, status).pending is None,
        state.finished(id, sqe, status).max_io == state.max_io,
        state.finished(id, sqe, status).capacity == state.capacity,
        state.finished(id, sqe, status).readonly == state.readonly,
{
    assert(state.io[id - 1].valid());
}

proof fn lemma_queue_requests_allowed(state: Nvme, memory: Mapped, id: u16, n: nat)
    requires
        state.valid(),
        state.pending is None,
        1 <= id <= state.max_io,
    ensures
        state.io_drained(memory, id, n).1 matches Some(op) ==> request_allowed(state, op),
    decreases n,
{
    if n > 0 && state.io[id - 1].sq_head != state.io[id - 1].sq_tail {
        let (fetched, sqe) = state.fetched(memory, id);
        if let Some(sqe) = sqe {
            lemma_command_request_allowed(fetched, sqe);
            let (next, outcome) = fetched.io_done(sqe);
            if let IoOutcome::Status(status) = outcome {
                lemma_finishing_keeps_disk(next, id, sqe, status);
                lemma_queue_requests_allowed(
                    next.finished(id, sqe, status),
                    memory,
                    id,
                    (n - 1) as nat,
                );
            }
        }
    }
}

/// Whatever the guest writes to the registers, the disk is asked for nothing beyond its end,
/// and a read-only disk is neither written nor flushed.
pub proof fn writes_stay_on_the_disk(state: Nvme, offset: u64, data: Seq<u8>)
    requires
        state.valid(),
        state.pending is None,
    ensures
        state.bar_written(offset, data).1 matches BarAction::Disk(op) ==> request_allowed(
            state,
            op,
        ),
{
    let doorbell = (offset - DBL_BASE_OFFSET) as u64;
    let id = (doorbell / DBL_STRIDE) as u16;
    let tail = value16(data);
    if state.cc_en && 1 <= id <= state.max_io && state.queue(id).allocated {
        let queue = state.queue(id);
        assert(state.io[id - 1].valid());
        let rung = state.with_queue(id, NvmeQueue { sq_tail: tail, ..queue });
        let (ram, memory) = rung.ram.loaded();
        lemma_queue_requests_allowed(
            Nvme { ram, ..rung },
            memory,
            id,
            queue.queue_size as nat,
        );
    }
}

/// The same holds of the requests that follow the outcome of an earlier one.
pub proof fn further_requests_stay_on_the_disk(state: Nvme, reply: Option<Seq<u8>>)
    requires
        state.valid(),
    ensures
        state.disk_finished(reply).1 matches Some(op) ==> request_allowed(state, op),
{
    if let Some(io) = state.pending {
        let (next, status) = (Nvme { pending: None, ..state }).disk_answered(io.sqe, reply);
        lemma_finishing_keeps_disk(next, io.sqid, io.sqe, status);
        lemma_queue_requests_allowed(
            next.finished(io.sqid, io.sqe, status),
            io.memory,
            io.sqid,
            io.left as nat,
        );
    }
}

/// What a disk does with a request: its bytes afterwards, and the bytes that it reads.
pub open spec fn disk_does(disk: Seq<u8>, op: DiskOp) -> (Seq<u8>, Seq<u8>) {
    match op {
        DiskOp::Read { offset, length } => (
            disk,
            disk.subrange(offset as int, offset + length),
        ),
        DiskOp::Write { offset, data } => (
            crate::bytes::overlay(disk, offset as int, data),
            Seq::empty(),
        ),
        DiskOp::Flush => (disk, Seq::empty()),
    }
}

/// A read of blocks gives back what a write of the same blocks has taken from the guest's
/// pages, if the disk does what it is asked for.
pub proof fn a_read_gives_back_what_was_written(
    state: Nvme,
    write: NvmeSqe,
    read: NvmeSqe,
    disk: Seq<u8>,
)
    requires
        state.valid(),
        write.opcode_spec() == NVME_CMD_WRITE,
        read.opcode_spec() == NVME_CMD_READ,
        read.namespace() == write.namespace(),
        read.slba() == write.slba(),
        read.blocks() == write.blocks(),
        state.io_done(write).1 is Disk,
        disk.len() >= state.capacity * LBA_SIZE,
    ensures
        ({
            let taken = crate::nvme::prp::prp_read(
                state.ram,
                write.prp1_spec(),
                write.prp2_spec(),
                (write.blocks() * LBA_SIZE) as nat,
            ).1;
            let written = disk_does(disk, state.io_done(write).1->Disk_0).0;
            &&& state.io_done(read).1 is Disk
            &&& taken is Ok
            &&& disk_does(written, state.io_done(read).1->Disk_0).1 == taken->Ok_0
        }),
{
    let length = (write.blocks() * LBA_SIZE) as nat;
    assert(write.slba() * LBA_SIZE + write.blocks() * LBA_SIZE <= state.capacity * LBA_SIZE);
    crate::nvme::prp::transfers_are_whole(
        state.ram,
        write.prp1_spec(),
        write.prp2_spec(),
        length,
    );
    let data = crate::nvme::prp::prp_read(
        state.ram,
        write.prp1_spec(),
        write.prp2_spec(),
        length,
    ).1->Ok_0;
    let offset = write.slba() * LBA_SIZE;
    assert(crate::bytes::overlay(disk, offset, data).subrange(offset, offset + length) =~= data);
}

/// A controller that is not enabled ignores every doorbell.
pub proof fn a_disabled_controller_ignores_doorbells(state: Nvme, id: u16, tail: u16)
    requires
        !state.cc_en,
    ensures
        state.sq_doorbell(id, tail) == (state, None::<DiskOp>),
{
}

/// Disabling the controller leaves no command and no I/O queue behind.
pub proof fn disabling_empties_the_queues(state: Nvme, data: Seq<u8>)
    requires
        state.cc_en,
        value32(data) % 2 == 0,
    ensures
        ({
            let after = state.register_written(CC_OFFSET, data);
            &&& !after.cc_en
            &&& after.admin.sq_head == after.admin.sq_tail
            &&& forall|i: int| 0 <= i < after.io.len() ==> !(#[trigger] after.io[i]).allocated
        }),
{
}

} // verus!
