//! A UHCI host controller with its two root ports.
use vstd::prelude::*;

use std::collections::HashSet;

use crate::bytes::{fill_from, get_le16, get_le32, push_le16, push_le32};
use crate::guest_memory::{Answers, Dma, GuestAddress, GuestMemoryError, GuestMemoryMap};
use crate::usb::control::Answer;
use crate::usb::{Bus, UsbBus, UsbPacketResult, UsbPid};

verus! {

broadcast use crate::guest_memory::group_answers;

pub const UHCI_IO_BAR_SIZE: u64 = 0x20;

pub const USBCMD: u64 = 0x00;
pub const USBSTS: u64 = 0x02;
pub const USBINTR: u64 = 0x04;
pub const FRNUM: u64 = 0x06;
pub const FLBASEADD: u64 = 0x08;
pub const FLBASEADD_HIGH: u64 = 0x0a;
pub const SOFMOD: u64 = 0x0c;
pub const PORTSC1: u64 = 0x10;
pub const PORTSC2: u64 = 0x12;

pub const CMD_RUN_STOP: u16 = 0x0001;
/// Host controller reset and global reset.
pub const CMD_RESETS: u16 = 0x0006;
pub const CMD_VALID_BITS: u16 = 0x00ff;

pub const STS_USBINT: u16 = 0x0001;
pub const STS_USBERR: u16 = 0x0002;
pub const STS_RESUME: u16 = 0x0004;
pub const STS_HOST_SYSTEM_ERROR: u16 = 0x0008;
pub const STS_HOST_CONTROLLER_ERROR: u16 = 0x0010;
pub const STS_HALTED: u16 = 0x0020;
/// Every status bit but the halted bit is cleared by writing a one.
pub const STS_WRITE_CLEAR: u16 = 0x001f;
/// A system error or a controller error.
pub const STS_FATAL: u16 = 0x0018;
/// The bits that a schedule fault sets: controller error and halted.
pub const STS_FAULTED: u16 = 0x0030;

pub const INTR_TIMEOUT_CRC: u16 = 0x0001;
pub const INTR_RESUME: u16 = 0x0002;
pub const INTR_ON_COMPLETE: u16 = 0x0004;
pub const INTR_SHORT_PACKET: u16 = 0x0008;

pub const PORT_CONNECTED: u16 = 0x0001;
pub const PORT_CONNECT_CHANGE: u16 = 0x0002;
pub const PORT_ENABLED: u16 = 0x0004;
pub const PORT_ENABLE_CHANGE: u16 = 0x0008;
pub const PORT_ALWAYS_ONE: u16 = 0x0080;
pub const PORT_LOW_SPEED: u16 = 0x0100;
pub const PORT_RESET: u16 = 0x0200;
pub const PORT_SUSPEND: u16 = 0x1000;
pub const PORT_READ_ONLY: u16 = 0x01bb;
/// Connect change and enable change are cleared by writing a one.
pub const PORT_WRITE_CLEAR: u16 = 0x000a;
/// Always one, connected, low speed.
pub const PORT_FIXED: u16 = 0x0181;
/// A port after reset: the fixed bits and a connect change.
pub const PORT_ATTACHED: u16 = 0x0183;
/// Enabled, with an enable change.
pub const PORT_NEWLY_ENABLED: u16 = 0x000c;

pub const LINK_TERMINATE: u32 = 0x1;
pub const LINK_QUEUE_HEAD: u32 = 0x2;
pub const LINK_DEPTH_FIRST: u32 = 0x4;
pub const LINK_ADDRESS_MASK: u32 = 0xffff_fff0;

pub const TD_CTRL_ACTUAL_LENGTH: u32 = 0x0000_07ff;
pub const TD_CTRL_TIMEOUT: u32 = 0x0004_0000;
pub const TD_CTRL_NAK: u32 = 0x0008_0000;
pub const TD_CTRL_BABBLE: u32 = 0x0010_0000;
pub const TD_CTRL_STALL: u32 = 0x0040_0000;
pub const TD_CTRL_ACTIVE: u32 = 0x0080_0000;
pub const TD_CTRL_IOC: u32 = 0x0100_0000;
pub const TD_CTRL_SPD: u32 = 0x2000_0000;
/// A babble also stalls the endpoint.
pub const TD_CTRL_BABBLE_STALL: u32 = 0x0050_0000;
/// The status bits and the actual length.
pub const TD_CTRL_RESULT: u32 = 0x00fe_07ff;

pub const PID_SETUP: u8 = 0x2d;
pub const PID_IN: u8 = 0x69;
pub const PID_OUT: u8 = 0xe1;

pub const INTERRUPT_CAUSE_IOC: u8 = 0x1;
pub const INTERRUPT_CAUSE_SHORT_PACKET: u8 = 0x2;

pub const MAX_SCHEDULE_ENTRIES: usize = 256;
pub const MAX_TRANSFER_SIZE: usize = 0x500;

/// One level-triggered interrupt line of the client. A raised line is signalled once, and
/// masks itself until the client unmasks it. `due` is a signal that is still to be sent to
/// the client's event.
#[derive(Clone, Copy, Debug, PartialEq, Eq)]
pub struct InterruptLine {
    pub installed: bool,
    pub level: bool,
    pub masked: bool,
    pub due: bool,
}

impl InterruptLine {
    pub open spec fn signalled(self) -> InterruptLine {
        if self.level && !self.masked && self.installed {
            InterruptLine { masked: true, due: true, ..self }
        } else {
            self
        }
    }

    pub open spec fn at_level(self, level: bool) -> InterruptLine {
        let line = InterruptLine { level, ..self };
        if level {
            line.signalled()
        } else {
            line
        }
    }

    pub fn new() -> (r: Self)
        ensures
            r == (InterruptLine { installed: false, level: false, masked: false, due: false }),
    {
        InterruptLine { installed: false, level: false, masked: false, due: false }
    }

    /// The client has supplied an event for the line.
    pub fn install(&mut self)
        ensures
            *final(self) == (InterruptLine { installed: true, masked: false, ..*old(self) }).signalled(),
    {
        self.installed = true;
        self.masked = false;
        self.signal_if_needed();
    }

    pub fn disable(&mut self)
        ensures
            *final(self) == (InterruptLine { installed: false, masked: false, ..*old(self) }),
    {
        self.installed = false;
        self.masked = false;
    }

    pub fn mask(&mut self)
        ensures
            *final(self) == (InterruptLine { masked: true, ..*old(self) }),
    {
        self.masked = true;
    }

    pub fn unmask(&mut self)
        ensures
            *final(self) == (InterruptLine { masked: false, ..*old(self) }).signalled(),
    {
        self.masked = false;
        self.signal_if_needed();
    }

    pub fn set_level(&mut self, level: bool)
        ensures
            *final(self) == old(self).at_level(level),
    {
        self.level = level;
        if !level {
            return;
        }
        self.signal_if_needed();
    }

    fn signal_if_needed(&mut self)
        ensures
            *final(self) == old(self).signalled(),
    {
        if !self.level || self.masked {
            return;
        }
        if self.installed {
            self.due = true;
            self.masked = true;
        }
    }

    /// Takes the signal that is due, if any.
    pub fn take_signal(&mut self) -> (r: bool)
        ensures
            r == old(self).due,
            *final(self) == (InterruptLine { due: false, ..*old(self) }),
    {
        let due = self.due;
        self.due = false;
        due
    }

    /// The signal that was taken could not be sent: the line is not masked by it.
    pub fn signal_failed(&mut self)
        ensures
            *final(self) == (InterruptLine { masked: false, ..*old(self) }),
    {
        self.masked = false;
    }
}

impl Default for InterruptLine {
    fn default() -> (r: Self)
        ensures
            r == (InterruptLine { installed: false, level: false, masked: false, due: false }),
    {
        Self::new()
    }
}

/// Why the controller refused an access or gave up a schedule.
#[derive(Clone, Copy, Debug, PartialEq, Eq, Structural)]
pub enum UhciError {
    /// The access leaves the register block.
    OutOfRange,
    /// A transfer asks for more bytes than a frame can carry.
    TransferTooLong,
    /// The address of a descriptor overflows.
    DescriptorOverflow,
    /// Guest memory refused the access.
    Memory(GuestMemoryError),
}

#[derive(Clone, Copy)]
pub struct QueueHead {
    pub address: u32,
    pub horizontal: u32,
    pub element: u32,
}

#[derive(Clone, Copy)]
pub struct TransferDescriptor {
    pub link: u32,
    pub control: u32,
    pub token: u32,
    pub buffer: u32,
}

#[derive(Clone, Copy, Debug, PartialEq, Eq, Structural)]
pub enum TdResult {
    Complete,
    ShortPacket,
    StopQueue,
}

/// The state of the controller.
#[verifier::ext_equal]
pub struct Uhci {
    pub command: u16,
    pub status: u16,
    pub interrupt_enable: u16,
    pub interrupt_causes: u8,
    pub frame_number: u16,
    pub frame_list_base: u32,
    pub sof_modify: u8,
    pub ports: (u16, u16),
    pub bus: Bus,
    pub schedule_faulted: bool,
    pub interrupt: InterruptLine,
}

/// The next value of a port register.
pub open spec fn port_after_write(previous: u16, value: u16) -> u16 {
    let kept = (previous & PORT_READ_ONLY) | (value & !PORT_READ_ONLY);
    let cleared = kept & !(value & PORT_WRITE_CLEAR);
    let connected = if cleared & PORT_CONNECTED == 0 {
        cleared & !PORT_ENABLED
    } else {
        cleared
    };
    let released = if previous & PORT_RESET != 0 && value & PORT_RESET == 0 {
        connected | PORT_NEWLY_ENABLED
    } else {
        connected
    };
    let resumed = if released & PORT_RESET != 0 {
        released & !PORT_SUSPEND
    } else {
        released
    };
    let next = resumed | PORT_FIXED;
    if previous & PORT_ENABLED != next & PORT_ENABLED {
        next | PORT_ENABLE_CHANGE
    } else {
        next
    }
}

/// The token's fields.
pub open spec fn token_pid(token: u32) -> Option<UsbPid> {
    let pid = token as u8;
    if pid == PID_SETUP {
        Some(UsbPid::Setup)
    } else if pid == PID_IN {
        Some(UsbPid::In)
    } else if pid == PID_OUT {
        Some(UsbPid::Out)
    } else {
        None
    }
}

pub open spec fn token_endpoint(token: u32) -> u8 {
    ((token >> 15) & 0x0f) as u8
}

pub open spec fn token_address(token: u32) -> u8 {
    ((token >> 8) & 0x7f) as u8
}

/// The maximum length is stored less one, so that all ones stand for no data.
pub open spec fn token_length(token: u32) -> nat {
    (((token >> 21) + 1) as usize & 0x07ff) as nat
}

impl Uhci {
    pub open spec fn powered_on(interrupt: InterruptLine) -> Uhci {
        Uhci {
            command: 0,
            status: STS_HALTED,
            interrupt_enable: 0,
            interrupt_causes: 0,
            frame_number: 0,
            frame_list_base: 0,
            sof_modify: 0x40,
            ports: (PORT_ATTACHED, PORT_ATTACHED),
            bus: Bus::powered_on().after_reset_port(0).after_reset_port(1),
            schedule_faulted: false,
            interrupt: interrupt.at_level(false),
        }
    }

    /// The state after a reset.
    pub open spec fn fresh(self) -> Uhci {
        Uhci {
            command: 0,
            status: STS_HALTED,
            interrupt_enable: 0,
            interrupt_causes: 0,
            frame_number: 0,
            frame_list_base: 0,
            sof_modify: 0x40,
            ports: (PORT_ATTACHED, PORT_ATTACHED),
            bus: self.bus.after_reset_port(0).after_reset_port(1),
            schedule_faulted: false,
            interrupt: self.interrupt.at_level(false),
        }
    }

    pub open spec fn running(self) -> bool {
        self.command & CMD_RUN_STOP != 0 && !self.schedule_faulted
    }

    /// Whether an enabled interrupt condition holds. Errors of the host cannot be disabled.
    pub open spec fn interrupting(self) -> bool {
        ||| self.status & STS_USBINT != 0 && ((self.interrupt_causes & INTERRUPT_CAUSE_IOC != 0
            && self.interrupt_enable & INTR_ON_COMPLETE != 0) || (self.interrupt_causes
            & INTERRUPT_CAUSE_SHORT_PACKET != 0 && self.interrupt_enable & INTR_SHORT_PACKET != 0))
        ||| self.status & STS_USBERR != 0 && self.interrupt_enable & INTR_TIMEOUT_CRC != 0
        ||| self.status & STS_RESUME != 0 && self.interrupt_enable & INTR_RESUME != 0
        ||| self.status & STS_FATAL != 0
    }

    pub open spec fn line_updated(self) -> Uhci {
        Uhci { interrupt: self.interrupt.at_level(self.interrupting()), ..self }
    }

    pub open spec fn port(self, index: int) -> u16 {
        if index == 0 {
            self.ports.0
        } else {
            self.ports.1
        }
    }

    pub open spec fn with_port(self, index: int, value: u16) -> Uhci {
        Uhci {
            ports: if index == 0 {
                (value, self.ports.1)
            } else {
                (self.ports.0, value)
            },
            ..self
        }
    }

    pub open spec fn after_port_write(self, index: usize, value: u16) -> Uhci {
        let previous = self.port(index as int);
        let bus = if value & PORT_RESET != 0 && previous & PORT_RESET == 0 {
            self.bus.after_reset_port(index)
        } else {
            self.bus
        };
        (Uhci { bus, ..self }).with_port(index as int, port_after_write(previous, value))
    }

    pub open spec fn after_command(self, value: u16) -> Uhci {
        if value & CMD_RESETS != 0 {
            self.fresh()
        } else {
            let command = value & CMD_VALID_BITS;
            (Uhci {
                command,
                status: if command & CMD_RUN_STOP != 0 {
                    self.status & !STS_HALTED
                } else {
                    self.status | STS_HALTED
                },
                ..self
            }).line_updated()
        }
    }

    pub open spec fn after_status_write(self, value: u16) -> Uhci {
        let clear = value & STS_WRITE_CLEAR;
        (Uhci {
            status: self.status & !clear,
            interrupt_causes: if clear & STS_USBINT != 0 {
                0
            } else {
                self.interrupt_causes
            },
            ..self
        }).line_updated()
    }

    /// The register block as bytes; what no register occupies reads as ones.
    pub open spec fn registers(self) -> Seq<u8> {
        crate::bytes::le16_bytes(self.command) + crate::bytes::le16_bytes(self.status)
            + crate::bytes::le16_bytes(self.interrupt_enable) + crate::bytes::le16_bytes(
            self.frame_number,
        ) + crate::bytes::le32_bytes(self.frame_list_base) + seq![
            self.sof_modify,
            0xffu8,
            0xffu8,
            0xffu8,
        ] + crate::bytes::le16_bytes(self.ports.0) + crate::bytes::le16_bytes(self.ports.1)
            + Seq::new(12, |i: int| 0xffu8)
    }

    /// A write of `data` at `offset`. Only writes that match a register in place and width
    /// have an effect.
    pub open spec fn after_write(self, offset: u64, data: Seq<u8>) -> Uhci {
        if data.len() == 2 {
            let value = crate::bytes::le16(data, 0);
            if offset == USBCMD {
                self.after_command(value)
            } else if offset == USBSTS {
                self.after_status_write(value)
            } else if offset == USBINTR {
                (Uhci { interrupt_enable: value & 0x000f, ..self }).line_updated()
            } else if offset == FRNUM && self.status & STS_HALTED != 0 {
                Uhci { frame_number: value & 0x07ff, ..self }
            } else if offset == FLBASEADD {
                Uhci {
                    frame_list_base: (self.frame_list_base & 0xffff_0000) | ((value & 0xf000)
                        as u32),
                    ..self
                }
            } else if offset == FLBASEADD_HIGH {
                Uhci {
                    frame_list_base: (self.frame_list_base & 0x0000_ffff) | ((value as u32) << 16),
                    ..self
                }
            } else if offset == PORTSC1 {
                self.after_port_write(0, value)
            } else if offset == PORTSC2 {
                self.after_port_write(1, value)
            } else {
                self
            }
        } else if data.len() == 4 && offset == FLBASEADD {
            Uhci { frame_list_base: crate::bytes::le32(data, 0) & 0xffff_f000, ..self }
        } else if data.len() == 1 && offset == SOFMOD {
            Uhci { sof_modify: data[0] & 0x7f, ..self }
        } else {
            self
        }
    }

    pub open spec fn with_interrupt(self, cause: u8) -> Uhci {
        Uhci {
            interrupt_causes: self.interrupt_causes | cause,
            status: self.status | STS_USBINT,
            ..self
        }
    }

    /// A completion interrupt where the descriptor asks for one.
    pub open spec fn notified(self, control: u32) -> Uhci {
        if control & TD_CTRL_IOC != 0 {
            self.with_interrupt(INTERRUPT_CAUSE_IOC)
        } else {
            self
        }
    }

    /// The controller stops over a malformed descriptor.
    pub open spec fn halted(self) -> Uhci {
        Uhci { command: self.command & !CMD_RUN_STOP, status: self.status | STS_FAULTED, ..self }
    }

    /// The controller after a fault in the schedule.
    pub open spec fn faulted(self) -> Uhci {
        (Uhci { schedule_faulted: true, ..self.halted() }).line_updated()
    }

    pub open spec fn failed(self, td: TransferDescriptor, status: u32) -> (
        Uhci,
        TransferDescriptor,
    ) {
        let control = (td.control & !TD_CTRL_ACTIVE) | status;
        (
            (Uhci { status: self.status | STS_USBERR, ..self }).notified(control),
            TransferDescriptor { control, ..td },
        )
    }

    /// The port whose device answers to an address: the first enabled one.
    pub open spec fn port_of(self, address: u8) -> Option<usize> {
        if self.ports.0 & PORT_ENABLED != 0 && self.bus.address(0) == Some(address) {
            Some(0)
        } else if self.ports.1 & PORT_ENABLED != 0 && self.bus.address(1) == Some(address) {
            Some(1)
        } else {
            None
        }
    }

    /// The controller, the memory and the descriptor once a transfer descriptor has been
    /// served, and the outcome.
    pub open spec fn served(self, dma: Dma, td: TransferDescriptor) -> (
        Uhci,
        Dma,
        TransferDescriptor,
        Result<TdResult, UhciError>,
    ) {
        if td.control & TD_CTRL_ACTIVE == 0 {
            (self.notified(td.control), dma, td, Ok(TdResult::StopQueue))
        } else {
            match token_pid(td.token) {
                None => (self.halted(), dma, td, Ok(TdResult::StopQueue)),
                Some(pid) => {
                    if pid == UsbPid::Setup && token_endpoint(td.token) != 0 {
                        (self.halted(), dma, td, Ok(TdResult::StopQueue))
                    } else if token_length(td.token) > MAX_TRANSFER_SIZE {
                        (self, dma, td, Err(UhciError::TransferTooLong))
                    } else if pid == UsbPid::In || token_length(td.token) == 0 {
                        self.exchanged(dma, td, pid, Seq::empty())
                    } else {
                        let (dma2, output) = dma.read(td.buffer as u64, token_length(td.token));
                        match output {
                            None => (
                                self,
                                dma2,
                                td,
                                Err(UhciError::Memory(GuestMemoryError::NotReadable)),
                            ),
                            Some(bytes) => self.exchanged(dma2, td, pid, bytes),
                        }
                    }
                },
            }
        }
    }

    /// The same from the packet on: `output` is what the device is sent.
    pub open spec fn exchanged(
        self,
        dma: Dma,
        td: TransferDescriptor,
        pid: UsbPid,
        output: Seq<u8>,
    ) -> (Uhci, Dma, TransferDescriptor, Result<TdResult, UhciError>) {
        match self.port_of(token_address(td.token)) {
            None => {
                let (controller, td2) = self.failed(td, TD_CTRL_TIMEOUT);
                (controller, dma, td2, Ok(TdResult::StopQueue))
            },
            Some(port) => {
                let (bus, answer) = self.bus.after_packet(
                    port,
                    pid,
                    token_endpoint(td.token),
                    output,
                    token_length(td.token),
                );
                (Uhci { bus, ..self }).answered(dma, td, pid, answer)
            },
        }
    }

    /// The same from the device's answer on.
    pub open spec fn answered(
        self,
        dma: Dma,
        td: TransferDescriptor,
        pid: UsbPid,
        answer: Answer,
    ) -> (Uhci, Dma, TransferDescriptor, Result<TdResult, UhciError>) {
        let length = token_length(td.token);
        match answer {
            Answer::Nak => (
                self,
                dma,
                TransferDescriptor { control: td.control | TD_CTRL_NAK, ..td },
                Ok(TdResult::StopQueue),
            ),
            Answer::NoDevice => {
                let (controller, td2) = self.failed(td, TD_CTRL_TIMEOUT);
                (controller, dma, td2, Ok(TdResult::StopQueue))
            },
            Answer::Stall => {
                let (controller, td2) = self.failed(td, TD_CTRL_STALL);
                (controller, dma, td2, Ok(TdResult::StopQueue))
            },
            Answer::Success(input) => {
                if input.len() > length {
                    let (controller, td2) = self.failed(td, TD_CTRL_BABBLE_STALL);
                    (controller, dma, td2, Ok(TdResult::StopQueue))
                } else if pid == UsbPid::In && input.len() != 0 {
                    let (dma2, written) = dma.write(td.buffer as u64, input);
                    if written {
                        self.transferred(dma2, td, pid, input.len())
                    } else {
                        (self, dma2, td, Err(UhciError::Memory(GuestMemoryError::NotWritable)))
                    }
                } else {
                    self.transferred(
                        dma,
                        td,
                        pid,
                        if pid == UsbPid::In {
                            0
                        } else {
                            length
                        },
                    )
                }
            },
        }
    }

    /// The same once `actual` bytes have been transferred.
    pub open spec fn transferred(
        self,
        dma: Dma,
        td: TransferDescriptor,
        pid: UsbPid,
        actual: nat,
    ) -> (Uhci, Dma, TransferDescriptor, Result<TdResult, UhciError>) {
        let control = (td.control & !TD_CTRL_RESULT) | encoded_length(actual);
        let td2 = TransferDescriptor { control, ..td };
        let controller = self.notified(control);
        if pid == UsbPid::In && control & TD_CTRL_SPD != 0 && actual < token_length(td.token) {
            (
                controller.with_interrupt(INTERRUPT_CAUSE_SHORT_PACKET),
                dma,
                td2,
                Ok(TdResult::ShortPacket),
            )
        } else {
            (controller, dma, td2, Ok(TdResult::Complete))
        }
    }

    /// The walk over the schedule from `link` on, over at most `left` entries. A queue head
    /// or a descriptor that comes up a second time ends it.
    pub open spec fn walked(
        self,
        dma: Dma,
        link: u32,
        queue: Option<QueueHead>,
        seen_queues: Set<u32>,
        seen_descriptors: Set<u32>,
        left: nat,
    ) -> (Uhci, Dma, Result<(), UhciError>)
        decreases left,
    {
        let address = link & LINK_ADDRESS_MASK;
        if left == 0 || link & LINK_TERMINATE != 0 {
            (self, dma, Ok(()))
        } else if link & LINK_QUEUE_HEAD != 0 {
            if seen_queues.contains(address) {
                (self, dma, Ok(()))
            } else {
                let (dma2, head) = queue_head(dma, address);
                match head {
                    Err(error) => (self, dma2, Err(error)),
                    Ok(head) => if head.element & LINK_TERMINATE != 0 {
                        self.walked(
                            dma2,
                            head.horizontal,
                            None,
                            seen_queues.insert(address),
                            seen_descriptors,
                            (left - 1) as nat,
                        )
                    } else {
                        self.walked(
                            dma2,
                            head.element,
                            Some(head),
                            seen_queues.insert(address),
                            seen_descriptors,
                            (left - 1) as nat,
                        )
                    },
                }
            }
        } else if seen_descriptors.contains(address) {
            (self, dma, Ok(()))
        } else {
            let (controller, dma2, step) = self.stepped(dma, address, queue);
            match step {
                Err(error) => (controller, dma2, Err(error)),
                Ok((next, next_queue)) => controller.walked(
                    dma2,
                    next,
                    next_queue,
                    seen_queues,
                    seen_descriptors.insert(address),
                    (left - 1) as nat,
                ),
            }
        }
    }

    /// One transfer descriptor of the schedule: it is read, served and written back, the
    /// element link of its queue advances where it completed, and the next link results.
    pub open spec fn stepped(self, dma: Dma, address: u32, queue: Option<QueueHead>) -> (
        Uhci,
        Dma,
        Result<(u32, Option<QueueHead>), UhciError>,
    ) {
        let (dma2, read) = descriptor(dma, address);
        match read {
            Err(error) => (self, dma2, Err(error)),
            Ok(td) => {
                let (controller, dma3, td2, result) = self.served(dma2, td);
                match result {
                    Err(error) => (controller, dma3, Err(error)),
                    Ok(outcome) => {
                        let (dma4, stored) = control_written(dma3, address, td2);
                        match stored {
                            Err(error) => (controller, dma4, Err(error)),
                            Ok(()) => {
                                if outcome == TdResult::Complete {
                                    match queue {
                                        None => (controller, dma4, Ok((td2.link, None))),
                                        Some(head) => {
                                            let head2 = QueueHead { element: td2.link, ..head };
                                            let (dma5, advanced) = element_written(dma4, head2);
                                            match advanced {
                                                Err(error) => (controller, dma5, Err(error)),
                                                Ok(()) => if td2.link & LINK_DEPTH_FIRST != 0 {
                                                    (
                                                        controller,
                                                        dma5,
                                                        Ok((td2.link, Some(head2))),
                                                    )
                                                } else {
                                                    (controller, dma5, Ok((head.horizontal, None)))
                                                },
                                            }
                                        },
                                    }
                                } else {
                                    (
                                        controller,
                                        dma4,
                                        Ok(
                                            (
                                                match queue {
                                                    Some(head) => head.horizontal,
                                                    None => td2.link,
                                                },
                                                None,
                                            ),
                                        ),
                                    )
                                }
                            },
                        }
                    },
                }
            },
        }
    }

    /// One frame: the schedule of the current frame list entry is walked, and the frame
    /// number advances where no access failed.
    pub open spec fn framed(self, dma: Dma) -> (Uhci, Dma, Result<(), UhciError>) {
        let entry = (self.frame_list_base + 4 * (self.frame_number & 0x03ff)) as u64;
        let (dma2, link) = dma.read_u32(entry);
        match link {
            None => (self, dma2, Err(UhciError::Memory(GuestMemoryError::NotReadable))),
            Some(link) => {
                let (controller, dma3, result) = self.walked(
                    dma2,
                    link,
                    None,
                    Set::empty(),
                    Set::empty(),
                    MAX_SCHEDULE_ENTRIES as nat,
                );
                match result {
                    Err(error) => (controller, dma3, Err(error)),
                    Ok(()) => (
                        (Uhci {
                            frame_number: ((controller.frame_number + 1) as u16) & 0x07ff,
                            ..controller
                        }).line_updated(),
                        dma3,
                        Ok(()),
                    ),
                }
            },
        }
    }

    /// One tick of the frame timer.
    pub open spec fn ticked(self, dma: Dma) -> (Uhci, Dma) {
        if !self.running() {
            (self, dma)
        } else {
            let (controller, dma2, result) = self.framed(dma);
            if result is Err {
                (controller.faulted(), dma2)
            } else {
                (controller, dma2)
            }
        }
    }
}

/// A transferred length as the control field stores it: less one.
pub open spec fn encoded_length(actual: nat) -> u32 {
    if actual == 0 {
        TD_CTRL_ACTUAL_LENGTH
    } else {
        ((actual - 1) as u32) & TD_CTRL_ACTUAL_LENGTH
    }
}

/// The queue head at an address of guest memory.
pub open spec fn queue_head(dma: Dma, address: u32) -> (Dma, Result<QueueHead, UhciError>) {
    let failed = Err(UhciError::Memory(GuestMemoryError::NotReadable));
    let (dma2, horizontal) = dma.read_u32(address as u64);
    match horizontal {
        None => (dma2, failed),
        Some(horizontal) => {
            let (dma3, element) = dma2.read_u32((address + 4) as u64);
            match element {
                None => (dma3, failed),
                Some(element) => (dma3, Ok(QueueHead { address, horizontal, element })),
            }
        },
    }
}

pub open spec fn element_written(dma: Dma, head: QueueHead) -> (Dma, Result<(), UhciError>) {
    let (dma2, done) = dma.write_u32((head.address + 4) as u64, head.element);
    if done {
        (dma2, Ok(()))
    } else {
        (dma2, Err(UhciError::Memory(GuestMemoryError::NotWritable)))
    }
}

/// The transfer descriptor at an address of guest memory.
pub open spec fn descriptor(dma: Dma, address: u32) -> (Dma, Result<TransferDescriptor, UhciError>) {
    let (dma2, bytes) = dma.read(address as u64, 16);
    match bytes {
        None => (dma2, Err(UhciError::Memory(GuestMemoryError::NotReadable))),
        Some(b) => (
            dma2,
            Ok(
                TransferDescriptor {
                    link: crate::bytes::le32(b, 0),
                    control: crate::bytes::le32(b, 4),
                    token: crate::bytes::le32(b, 8),
                    buffer: crate::bytes::le32(b, 12),
                },
            ),
        ),
    }
}

pub open spec fn control_written(dma: Dma, address: u32, td: TransferDescriptor) -> (
    Dma,
    Result<(), UhciError>,
) {
    if address + 4 > u32::MAX {
        (dma, Err(UhciError::DescriptorOverflow))
    } else {
        let (dma2, done) = dma.write_u32((address + 4) as u64, td.control);
        if done {
            (dma2, Ok(()))
        } else {
            (dma2, Err(UhciError::Memory(GuestMemoryError::NotWritable)))
        }
    }
}

impl QueueHead {
    fn read(memory: &mut GuestMemoryMap, address: u32) -> (r: Result<Self, UhciError>)
        requires
            old(memory)@.valid(),
        ensures
            final(memory)@.valid(),
            final(memory)@.follows(old(memory)@),
            forall|answers: Answers| #[trigger]
                final(memory)@.agrees(answers) ==> (final(memory)@.under(answers), r)
                    == queue_head(old(memory)@.under(answers), address),
    {
        let horizontal: u32 = match memory.read_u32(GuestAddress(address as u64)) {
            Ok(value) => value,
            Err(error) => {
                return Err(UhciError::Memory(error));
            },
        };
        let element: u32 = match memory.read_u32(GuestAddress(address as u64 + 4)) {
            Ok(value) => value,
            Err(error) => {
                return Err(UhciError::Memory(error));
            },
        };
        Ok(QueueHead { address, horizontal, element })
    }

    fn write_element(&self, memory: &mut GuestMemoryMap) -> (r: Result<(), UhciError>)
        requires
            old(memory)@.valid(),
        ensures
            final(memory)@.valid(),
            final(memory)@.follows(old(memory)@),
            forall|answers: Answers| #[trigger]
                final(memory)@.agrees(answers) ==> (final(memory)@.under(answers), r)
                    == element_written(old(memory)@.under(answers), *self),
    {
        match memory.write_u32(GuestAddress(self.address as u64 + 4), self.element) {
            Ok(()) => Ok(()),
            Err(error) => Err(UhciError::Memory(error)),
        }
    }
}

impl TransferDescriptor {
    fn read(memory: &mut GuestMemoryMap, address: u32) -> (r: Result<Self, UhciError>)
        requires
            old(memory)@.valid(),
        ensures
            final(memory)@.valid(),
            final(memory)@.follows(old(memory)@),
            forall|answers: Answers| #[trigger]
                final(memory)@.agrees(answers) ==> (final(memory)@.under(answers), r)
                    == descriptor(old(memory)@.under(answers), address),
    {
        match memory.read_vec(GuestAddress(address as u64), 16) {
            Ok(bytes) => Ok(
                TransferDescriptor {
                    link: get_le32(&bytes, 0),
                    control: get_le32(&bytes, 4),
                    token: get_le32(&bytes, 8),
                    buffer: get_le32(&bytes, 12),
                },
            ),
            Err(error) => Err(UhciError::Memory(error)),
        }
    }

    fn write_control(&self, memory: &mut GuestMemoryMap, address: u32) -> (r: Result<
        (),
        UhciError,
    >)
        requires
            old(memory)@.valid(),
        ensures
            final(memory)@.valid(),
            final(memory)@.follows(old(memory)@),
            forall|answers: Answers| #[trigger]
                final(memory)@.agrees(answers) ==> (final(memory)@.under(answers), r)
                    == control_written(old(memory)@.under(answers), address, *self),
    {
        let address: u32 = match address.checked_add(4) {
            Some(address) => address,
            None => {
                return Err(UhciError::DescriptorOverflow);
            },
        };
        match memory.write_u32(GuestAddress(address as u64), self.control) {
            Ok(()) => Ok(()),
            Err(error) => Err(UhciError::Memory(error)),
        }
    }
}

/// The bytes of the register block that an access touches.
pub fn checked_io_range(offset: u64, length: usize) -> (r: Result<(usize, usize), UhciError>)
    ensures
        r == (if offset + length <= UHCI_IO_BAR_SIZE {
            Ok((offset as usize, (offset + length) as usize))
        } else {
            Err(UhciError::OutOfRange)
        }),
{
    if offset > UHCI_IO_BAR_SIZE || length > UHCI_IO_BAR_SIZE as usize - offset as usize {
        return Err(UhciError::OutOfRange);
    }
    Ok((offset as usize, offset as usize + length))
}

pub struct UhciController {
    pub command: u16,
    pub status: u16,
    pub interrupt_enable: u16,
    pub interrupt_causes: u8,
    pub frame_number: u16,
    pub frame_list_base: u32,
    pub sof_modify: u8,
    pub ports: [u16; 2],
    pub bus: UsbBus,
    pub schedule_faulted: bool,
    pub interrupt: InterruptLine,
}

impl View for UhciController {
    type V = Uhci;

    open spec fn view(&self) -> Uhci {
        Uhci {
            command: self.command,
            status: self.status,
            interrupt_enable: self.interrupt_enable,
            interrupt_causes: self.interrupt_causes,
            frame_number: self.frame_number,
            frame_list_base: self.frame_list_base,
            sof_modify: self.sof_modify,
            ports: (self.ports@[0], self.ports@[1]),
            bus: self.bus@,
            schedule_faulted: self.schedule_faulted,
            interrupt: self.interrupt,
        }
    }
}

impl UhciController {
    pub open spec fn valid(&self) -> bool {
        self.bus.valid() && self.frame_number <= 0x07ff
    }

    pub fn new(interrupt: InterruptLine) -> (r: Self)
        ensures
            r.valid(),
            r@ == Uhci::powered_on(interrupt),
    {
        let mut this = UhciController {
            command: 0,
            status: STS_HALTED,
            interrupt_enable: 0,
            interrupt_causes: 0,
            frame_number: 0,
            frame_list_base: 0,
            sof_modify: 0x40,
            ports: [0, 0],
            bus: UsbBus::new(),
            schedule_faulted: false,
            interrupt,
        };
        this.reset();
        this
    }

    pub fn reset(&mut self)
        requires
            old(self).bus.valid(),
        ensures
            final(self).valid(),
            final(self)@ == old(self)@.fresh(),
    {
        self.command = 0;
        self.status = STS_HALTED;
        self.interrupt_enable = 0;
        self.interrupt_causes = 0;
        self.frame_number = 0;
        self.frame_list_base = 0;
        self.sof_modify = 0x40;
        self.reset_ports();
        self.schedule_faulted = false;
        self.interrupt.set_level(false);
    }

    fn reset_ports(&mut self)
        requires
            old(self).bus.valid(),
        ensures
            final(self).bus.valid(),
            final(self)@ == (Uhci {
                ports: (PORT_ATTACHED, PORT_ATTACHED),
                bus: old(self)@.bus.after_reset_port(0).after_reset_port(1),
                ..old(self)@
            }),
    {
        self.bus.reset_port(0);
        self.bus.reset_port(1);
        self.ports[0] = PORT_ATTACHED;
        self.ports[1] = PORT_ATTACHED;
    }

    pub fn is_running(&self) -> (r: bool)
        ensures
            r == self@.running(),
    {
        self.command & CMD_RUN_STOP != 0 && !self.schedule_faulted
    }

    pub fn input_key(&mut self, usage: u8, pressed: bool)
        requires
            old(self).valid(),
        ensures
            final(self).valid(),
            final(self)@ == (Uhci {
                bus: Bus {
                    keyboard: old(self)@.bus.keyboard.after_key(usage, pressed),
                    ..old(self)@.bus
                },
                ..old(self)@
            }),
    {
        self.bus.key(usage, pressed);
    }

    pub fn input_mouse(&mut self, dx: i32, dy: i32, wheel: i16, buttons: u8)
        requires
            old(self).valid(),
        ensures
            final(self).valid(),
            final(self)@ == (Uhci {
                bus: Bus {
                    mouse: old(self)@.bus.mouse.after_update(dx, dy, wheel, buttons),
                    ..old(self)@.bus
                },
                ..old(self)@
            }),
    {
        self.bus.mouse(dx, dy, wheel, buttons);
    }

    pub fn release_all_input(&mut self)
        requires
            old(self).valid(),
        ensures
            final(self).valid(),
            final(self)@ == (Uhci { bus: old(self)@.bus.after_release_all(), ..old(self)@ }),
    {
        self.bus.release_all();
    }

    pub fn keyboard_leds(&self) -> (r: u8)
        ensures
            r == self@.bus.keyboard.leds,
    {
        self.bus.keyboard_leds()
    }

    /// Takes the oldest keyboard report.
    pub fn take_keyboard_report(&mut self) -> (r: Option<[u8; 8]>)
        requires
            old(self).valid(),
        ensures
            final(self).valid(),
            final(self)@ == (Uhci {
                bus: Bus {
                    keyboard: old(self)@.bus.keyboard.after_next_report().0,
                    ..old(self)@.bus
                },
                ..old(self)@
            }),
            r == old(self)@.bus.keyboard.after_next_report().1,
    {
        self.bus.take_keyboard_report()
    }

    /// Takes the next mouse report.
    pub fn take_mouse_report(&mut self) -> (r: Option<Vec<u8>>)
        requires
            old(self).valid(),
        ensures
            final(self).valid(),
            final(self)@ == (Uhci {
                bus: Bus {
                    mouse: old(self)@.bus.mouse.after_next_report().0,
                    ..old(self)@.bus
                },
                ..old(self)@
            }),
            match (r, old(self)@.bus.mouse.after_next_report().1) {
                (Some(report), Some(bytes)) => report@ == bytes,
                (None, None) => true,
                _ => false,
            },
    {
        self.bus.take_mouse_report()
    }

    /// Processes one frame. A schedule that leads outside guest memory stops the controller.
    pub fn tick(&mut self, memory: &mut GuestMemoryMap)
        requires
            old(self).valid(),
            old(memory)@.valid(),
        ensures
            final(self).valid(),
            final(memory)@.valid(),
            final(memory)@.follows(old(memory)@),
            final(memory)@.settled(),
            forall|answers: Answers| #[trigger]
                final(memory)@.agrees(answers) ==> (final(self)@, final(memory)@.under(answers))
                    == old(self)@.ticked(old(memory)@.under(answers)),
    {
        broadcast use crate::guest_memory::lemma_settled;

        if !self.is_running() {
            return;
        }
        if self.process_frame(memory).is_err() {
            self.fault();
        }
    }

    /// Stops the schedule until the controller is reset.
    pub fn fault(&mut self)
        requires
            old(self).valid(),
        ensures
            final(self).valid(),
            final(self)@ == old(self)@.faulted(),
    {
        self.schedule_faulted = true;
        self.halt();
        self.update_interrupt();
    }

    fn halt(&mut self)
        requires
            old(self).valid(),
        ensures
            final(self).valid(),
            final(self)@ == old(self)@.halted(),
    {
        self.command = self.command & !CMD_RUN_STOP;
        self.status = self.status | STS_FAULTED;
    }

    /// Reads registers.
    pub fn read(&self, offset: u64, data: &mut [u8]) -> (r: Result<(), UhciError>)
        ensures
            final(data)@.len() == old(data)@.len(),
            if offset + old(data)@.len() <= UHCI_IO_BAR_SIZE {
                r is Ok && final(data)@ == self@.registers().subrange(
                    offset as int,
                    offset + old(data)@.len(),
                )
            } else {
                r == Err::<(), UhciError>(UhciError::OutOfRange) && final(data)@ == old(data)@
            },
    {
        let mut registers: Vec<u8> = Vec::new();
        push_le16(&mut registers, self.command);
        push_le16(&mut registers, self.status);
        push_le16(&mut registers, self.interrupt_enable);
        push_le16(&mut registers, self.frame_number);
        push_le32(&mut registers, self.frame_list_base);
        registers.push(self.sof_modify);
        registers.push(0xff);
        registers.push(0xff);
        registers.push(0xff);
        push_le16(&mut registers, self.ports[0]);
        push_le16(&mut registers, self.ports[1]);
        let mut n: usize = 0;
        let ghost named = registers@;
        while n < 12
            invariant
                n <= 12,
                registers@ == named + Seq::new(n as nat, |i: int| 0xffu8),
            decreases 12 - n,
        {
            registers.push(0xff);
            n = n + 1;
        }
        assert(registers@ =~= self@.registers());
        let (start, _end) = match checked_io_range(offset, data.len()) {
            Ok(range) => range,
            Err(error) => {
                return Err(error);
            },
        };
        fill_from(data, &registers, start);
        Ok(())
    }

    /// Writes a register.
    pub fn write(&mut self, offset: u64, data: &[u8]) -> (r: Result<(), UhciError>)
        requires
            old(self).valid(),
        ensures
            final(self).valid(),
            if offset + data@.len() <= UHCI_IO_BAR_SIZE {
                r is Ok && final(self)@ == old(self)@.after_write(offset, data@)
            } else {
                r == Err::<(), UhciError>(UhciError::OutOfRange) && final(self)@ == old(self)@
            },
    {
        if let Err(error) = checked_io_range(offset, data.len()) {
            return Err(error);
        }
        if data.len() == 2 {
            let value: u16 = get_le16(data, 0);
            if offset == USBCMD {
                self.write_command(value);
            } else if offset == USBSTS {
                let clear: u16 = value & STS_WRITE_CLEAR;
                self.status = self.status & !clear;
                if clear & STS_USBINT != 0 {
                    self.interrupt_causes = 0;
                }
                self.update_interrupt();
            } else if offset == USBINTR {
                self.interrupt_enable = value & 0x000f;
                self.update_interrupt();
            } else if offset == FRNUM && self.status & STS_HALTED != 0 {
                proof {
                    lemma_frame_bounds(value);
                }
                self.frame_number = value & 0x07ff;
            } else if offset == FLBASEADD {
                self.frame_list_base = (self.frame_list_base & 0xffff_0000) | ((value & 0xf000)
                    as u32);
            } else if offset == FLBASEADD_HIGH {
                self.frame_list_base = (self.frame_list_base & 0x0000_ffff) | ((value as u32)
                    << 16);
            } else if offset == PORTSC1 {
                self.write_port(0, value);
            } else if offset == PORTSC2 {
                self.write_port(1, value);
            }
        } else if data.len() == 4 && offset == FLBASEADD {
            self.frame_list_base = get_le32(data, 0) & 0xffff_f000;
        } else if data.len() == 1 && offset == SOFMOD {
            self.sof_modify = data[0] & 0x7f;
        }
        Ok(())
    }

    fn write_command(&mut self, value: u16)
        requires
            old(self).valid(),
        ensures
            final(self).valid(),
            final(self)@ == old(self)@.after_command(value),
    {
        if value & CMD_RESETS != 0 {
            self.reset();
            return;
        }
        self.command = value & CMD_VALID_BITS;
        if self.command & CMD_RUN_STOP != 0 {
            self.status = self.status & !STS_HALTED;
        } else {
            self.status = self.status | STS_HALTED;
        }
        self.update_interrupt();
    }

    fn write_port(&mut self, index: usize, value: u16)
        requires
            old(self).valid(),
            index < 2,
        ensures
            final(self).valid(),
            final(self)@ == old(self)@.after_port_write(index, value),
    {
        let previous: u16 = self.ports[index];
        if value & PORT_RESET != 0 && previous & PORT_RESET == 0 {
            self.bus.reset_port(index);
        }
        let read_only: u16 = previous & PORT_READ_ONLY;
        let mut next: u16 = read_only | (value & !PORT_READ_ONLY);
        next = next & !(value & PORT_WRITE_CLEAR);
        if next & PORT_CONNECTED == 0 {
            next = next & !PORT_ENABLED;
        }
        if previous & PORT_RESET != 0 && value & PORT_RESET == 0 {
            next = next | PORT_NEWLY_ENABLED;
        }
        if next & PORT_RESET != 0 {
            next = next & !PORT_SUSPEND;
        }
        next = next | PORT_FIXED;
        if previous & PORT_ENABLED != next & PORT_ENABLED {
            next = next | PORT_ENABLE_CHANGE;
        }
        self.ports[index] = next;
    }

    fn update_interrupt(&mut self)
        requires
            old(self).valid(),
        ensures
            final(self).valid(),
            final(self)@ == old(self)@.line_updated(),
    {
        let enabled = (self.status & STS_USBINT != 0 && ((self.interrupt_causes
            & INTERRUPT_CAUSE_IOC != 0 && self.interrupt_enable & INTR_ON_COMPLETE != 0) || (
        self.interrupt_causes & INTERRUPT_CAUSE_SHORT_PACKET != 0 && self.interrupt_enable
            & INTR_SHORT_PACKET != 0))) || (self.status & STS_USBERR != 0 && self.interrupt_enable
            & INTR_TIMEOUT_CRC != 0) || (self.status & STS_RESUME != 0 && self.interrupt_enable
            & INTR_RESUME != 0) || self.status & STS_FATAL != 0;
        self.interrupt.set_level(enabled);
    }

    #[verifier::rlimit(40)]
    fn process_frame(&mut self, memory: &mut GuestMemoryMap) -> (r: Result<(), UhciError>)
        requires
            old(self).valid(),
            old(memory)@.valid(),
        ensures
            final(self).valid(),
            final(memory)@.valid(),
            final(memory)@.follows(old(memory)@),
            forall|answers: Answers| #[trigger]
                final(memory)@.agrees(answers) ==> (final(self)@, final(memory)@.under(answers), r)
                    == old(self)@.framed(old(memory)@.under(answers)),
    {
        broadcast use vstd::std_specs::hash::group_hash_axioms;

        let number: u16 = self.frame_number;
        proof {
            lemma_frame_bounds(number);
        }
        let entry: u64 = self.frame_list_base as u64 + 4 * ((number & 0x03ff) as u64);
        let mut link: u32 = match memory.read_u32(GuestAddress(entry)) {
            Ok(value) => value,
            Err(error) => {
                return Err(UhciError::Memory(error));
            },
        };
        let mut current_qh: Option<QueueHead> = None;
        let mut seen_qh: HashSet<u32> = HashSet::new();
        let mut seen_td: HashSet<u32> = HashSet::new();
        let mut left: usize = MAX_SCHEDULE_ENTRIES;
        let ghost started = *self;
        let ghost mapped = memory@;
        let ghost first = link;
        let mut walking = true;
        while walking
            invariant
                self.valid(),
                memory@.valid(),
                old(self)@ == started@,
                left <= MAX_SCHEDULE_ENTRIES,
                mapped.follows(old(memory)@),
                memory@.follows(mapped),
                forall|answers: Answers| #[trigger]
                    mapped.agrees(answers) ==> old(memory)@.under(answers).read_u32(
                        (old(self)@.frame_list_base + 4 * (old(self)@.frame_number & 0x03ff))
                            as u64,
                    ) == (mapped.under(answers), Some(first)),
                walking ==> forall|answers: Answers| #[trigger]
                    memory@.agrees(answers) ==> self@.walked(
                        memory@.under(answers),
                        link,
                        current_qh,
                        seen_qh@,
                        seen_td@,
                        left as nat,
                    ) == started@.walked(
                        mapped.under(answers),
                        first,
                        None,
                        Set::empty(),
                        Set::empty(),
                        MAX_SCHEDULE_ENTRIES as nat,
                    ),
                !walking ==> forall|answers: Answers| #[trigger]
                    memory@.agrees(answers) ==> (
                        self@,
                        memory@.under(answers),
                        Ok::<(), UhciError>(()),
                    ) == started@.walked(
                        mapped.under(answers),
                        first,
                        None,
                        Set::empty(),
                        Set::empty(),
                        MAX_SCHEDULE_ENTRIES as nat,
                    ),
            decreases left, walking as nat,
        {
            if left == 0 || link & LINK_TERMINATE != 0 {
                walking = false;
                continue ;
            }
            left = left - 1;
            let address: u32 = link & LINK_ADDRESS_MASK;
            if link & LINK_QUEUE_HEAD != 0 {
                if !seen_qh.insert(address) {
                    walking = false;
                    continue ;
                }
                let head = match QueueHead::read(memory, address) {
                    Ok(head) => head,
                    Err(error) => {
                        return Err(error);
                    },
                };
                if head.element & LINK_TERMINATE != 0 {
                    link = head.horizontal;
                    current_qh = None;
                } else {
                    link = head.element;
                    current_qh = Some(head);
                }
                continue ;
            }
            if !seen_td.insert(address) {
                walking = false;
                continue ;
            }
            match self.step(memory, address, current_qh) {
                Ok((next, queue)) => {
                    link = next;
                    current_qh = queue;
                },
                Err(error) => {
                    return Err(error);
                },
            }
        }
        let frame: u16 = self.frame_number + 1;
        proof {
            lemma_frame_bounds(frame);
        }
        self.frame_number = frame & 0x07ff;
        self.update_interrupt();
        Ok(())
    }

    /// Serves the transfer descriptor at `address` and finds the link that follows.
    fn step(&mut self, memory: &mut GuestMemoryMap, address: u32, queue: Option<QueueHead>) -> (r:
        Result<(u32, Option<QueueHead>), UhciError>)
        requires
            old(self).valid(),
            old(memory)@.valid(),
        ensures
            final(self).valid(),
            final(memory)@.valid(),
            final(memory)@.follows(old(memory)@),
            forall|answers: Answers| #[trigger]
                final(memory)@.agrees(answers) ==> (final(self)@, final(memory)@.under(answers), r)
                    == old(self)@.stepped(
                    old(memory)@.under(answers),
                    address,
                    queue,
                ),
    {
        let mut td = match TransferDescriptor::read(memory, address) {
            Ok(td) => td,
            Err(error) => {
                return Err(error);
            },
        };
        let result = match self.service_td(memory, &mut td) {
            Ok(result) => result,
            Err(error) => {
                return Err(error);
            },
        };
        if let Err(error) = td.write_control(memory, address) {
            return Err(error);
        }
        match result {
            TdResult::Complete => {
                let next: u32 = td.link;
                match queue {
                    None => Ok((next, None)),
                    Some(mut head) => {
                        head.element = next;
                        if let Err(error) = head.write_element(memory) {
                            return Err(error);
                        }
                        if next & LINK_DEPTH_FIRST != 0 {
                            Ok((next, Some(head)))
                        } else {
                            Ok((head.horizontal, None))
                        }
                    },
                }
            },
            TdResult::ShortPacket | TdResult::StopQueue => {
                match queue {
                    Some(head) => Ok((head.horizontal, None)),
                    None => Ok((td.link, None)),
                }
            },
        }
    }

    fn find_port(&self, address: u8) -> (r: Option<usize>)
        ensures
            r == self@.port_of(address),
            r is Some ==> r->0 < 2,
    {
        if self.ports[0] & PORT_ENABLED != 0 {
            if let Some(device) = self.bus.address(0) {
                if device == address {
                    return Some(0);
                }
            }
        }
        if self.ports[1] & PORT_ENABLED != 0 {
            if let Some(device) = self.bus.address(1) {
                if device == address {
                    return Some(1);
                }
            }
        }
        None
    }

    fn service_td(&mut self, memory: &mut GuestMemoryMap, td: &mut TransferDescriptor) -> (r:
        Result<TdResult, UhciError>)
        requires
            old(self).valid(),
            old(memory)@.valid(),
        ensures
            final(self).valid(),
            final(memory)@.valid(),
            final(memory)@.follows(old(memory)@),
            forall|answers: Answers| #[trigger]
                final(memory)@.agrees(answers) ==> (final(self)@, final(memory)@.under(answers), *final(td), r)
                    == old(self)@.served(
                    old(memory)@.under(answers),
                    *old(td),
                ),
    {
        if td.control & TD_CTRL_ACTIVE == 0 {
            self.notify(td.control);
            return Ok(TdResult::StopQueue);
        }
        let token: u32 = td.token;
        let code: u8 = token as u8;
        let pid = if code == PID_SETUP {
            UsbPid::Setup
        } else if code == PID_IN {
            UsbPid::In
        } else if code == PID_OUT {
            UsbPid::Out
        } else {
            self.halt();
            return Ok(TdResult::StopQueue);
        };
        let endpoint: u8 = ((token >> 15) & 0x0f) as u8;
        if pid == UsbPid::Setup && endpoint != 0 {
            self.halt();
            return Ok(TdResult::StopQueue);
        }
        proof {
            lemma_length_bound(token);
        }
        let maximum_length: usize = ((token >> 21) + 1) as usize & 0x07ff;
        if maximum_length > MAX_TRANSFER_SIZE {
            return Err(UhciError::TransferTooLong);
        }
        let output: Vec<u8> = if pid == UsbPid::In || maximum_length == 0 {
            Vec::new()
        } else {
            match memory.read_vec(GuestAddress(td.buffer as u64), maximum_length) {
                Ok(bytes) => bytes,
                Err(error) => {
                    return Err(UhciError::Memory(error));
                },
            }
        };
        assert(pid == UsbPid::In || maximum_length == 0 ==> output@ =~= Seq::<u8>::empty());
        self.exchange(memory, td, pid, &output)
    }

    /// Sends the packet of a transfer descriptor to the device that it addresses.
    fn exchange(
        &mut self,
        memory: &mut GuestMemoryMap,
        td: &mut TransferDescriptor,
        pid: UsbPid,
        output: &[u8],
    ) -> (r: Result<TdResult, UhciError>)
        requires
            old(self).valid(),
            old(memory)@.valid(),
        ensures
            final(self).valid(),
            final(memory)@.valid(),
            final(memory)@.follows(old(memory)@),
            forall|answers: Answers| #[trigger]
                final(memory)@.agrees(answers) ==> (final(self)@, final(memory)@.under(answers), *final(td), r)
                    == old(self)@.exchanged(
                    old(memory)@.under(answers),
                    *old(td),
                    pid,
                    output@,
                ),
    {
        let token: u32 = td.token;
        let endpoint: u8 = ((token >> 15) & 0x0f) as u8;
        proof {
            lemma_length_bound(token);
        }
        let maximum_length: usize = ((token >> 21) + 1) as usize & 0x07ff;
        let function_address: u8 = ((token >> 8) & 0x7f) as u8;
        let port: usize = match self.find_port(function_address) {
            Some(port) => port,
            None => {
                return Ok(self.complete_error(td, TD_CTRL_TIMEOUT));
            },
        };
        let result = self.bus.packet(port, pid, endpoint, output, maximum_length);
        self.conclude(memory, td, pid, result)
    }

    /// Turns the answer of a device into the outcome of a transfer descriptor.
    fn conclude(
        &mut self,
        memory: &mut GuestMemoryMap,
        td: &mut TransferDescriptor,
        pid: UsbPid,
        result: UsbPacketResult,
    ) -> (r: Result<TdResult, UhciError>)
        requires
            old(self).valid(),
            old(memory)@.valid(),
        ensures
            final(self).valid(),
            final(memory)@.valid(),
            final(memory)@.follows(old(memory)@),
            forall|answers: Answers| #[trigger]
                final(memory)@.agrees(answers) ==> (final(self)@, final(memory)@.under(answers), *final(td), r)
                    == old(self)@.answered(
                    old(memory)@.under(answers),
                    *old(td),
                    pid,
                    result@,
                ),
    {
        let token: u32 = td.token;
        proof {
            lemma_length_bound(token);
        }
        let maximum_length: usize = ((token >> 21) + 1) as usize & 0x07ff;
        match result {
            UsbPacketResult::Nak => {
                td.control = td.control | TD_CTRL_NAK;
                Ok(TdResult::StopQueue)
            },
            UsbPacketResult::NoDevice => Ok(self.complete_error(td, TD_CTRL_TIMEOUT)),
            UsbPacketResult::Stall => Ok(self.complete_error(td, TD_CTRL_STALL)),
            UsbPacketResult::Success(input) => {
                if input.len() > maximum_length {
                    return Ok(self.complete_error(td, TD_CTRL_BABBLE_STALL));
                }
                if pid == UsbPid::In && input.len() != 0 {
                    if let Err(error) = memory.write(GuestAddress(td.buffer as u64), &input) {
                        return Err(UhciError::Memory(error));
                    }
                }
                let actual_length: usize = if pid == UsbPid::In {
                    input.len()
                } else {
                    maximum_length
                };
                let encoded: u32 = if actual_length == 0 {
                    TD_CTRL_ACTUAL_LENGTH
                } else {
                    ((actual_length - 1) as u32) & TD_CTRL_ACTUAL_LENGTH
                };
                td.control = (td.control & !TD_CTRL_RESULT) | encoded;
                self.notify(td.control);
                if pid == UsbPid::In && td.control & TD_CTRL_SPD != 0 && actual_length
                    < maximum_length {
                    self.raise_usb_interrupt(INTERRUPT_CAUSE_SHORT_PACKET);
                    Ok(TdResult::ShortPacket)
                } else {
                    Ok(TdResult::Complete)
                }
            },
        }
    }

    fn complete_error(&mut self, td: &mut TransferDescriptor, status: u32) -> (r: TdResult)
        requires
            old(self).valid(),
        ensures
            final(self).valid(),
            (final(self)@, *final(td)) == old(self)@.failed(*old(td), status),
            r == TdResult::StopQueue,
    {
        td.control = (td.control & !TD_CTRL_ACTIVE) | status;
        self.status = self.status | STS_USBERR;
        self.notify(td.control);
        TdResult::StopQueue
    }

    fn notify(&mut self, control: u32)
        requires
            old(self).valid(),
        ensures
            final(self).valid(),
            final(self)@ == old(self)@.notified(control),
    {
        if control & TD_CTRL_IOC != 0 {
            self.raise_usb_interrupt(INTERRUPT_CAUSE_IOC);
        }
    }

    fn raise_usb_interrupt(&mut self, cause: u8)
        requires
            old(self).valid(),
        ensures
            final(self).valid(),
            final(self)@ == old(self)@.with_interrupt(cause),
    {
        self.interrupt_causes = self.interrupt_causes | cause;
        self.status = self.status | STS_USBINT;
    }
}

proof fn lemma_length_bound(token: u32)
    by (bit_vector)
    ensures
        token >> 21 <= 0x07ff,
{
}

proof fn lemma_frame_bounds(number: u16)
    by (bit_vector)
    ensures
        number & 0x07ff <= 0x07ff,
        number & 0x03ff <= 0x03ff,
{
}

/// A frame whose schedule leads outside guest memory stops the controller, with the error
/// and halted bits set.
pub proof fn a_failed_frame_stops_the_controller(controller: Uhci, dma: Dma)
    requires
        controller.running(),
        controller.framed(dma).2 is Err,
    ensures
        ({
            let after = controller.ticked(dma).0;
            &&& !after.running()
            &&& after.status & STS_HOST_CONTROLLER_ERROR != 0
            &&& after.status & STS_HALTED != 0
        }),
{
    let status = controller.framed(dma).0.status;
    assert((status | STS_FAULTED) & STS_HOST_CONTROLLER_ERROR != 0 && (status | STS_FAULTED)
        & STS_HALTED != 0) by (bit_vector);
}

/// A controller that does not run leaves guest memory alone.
pub proof fn a_stopped_controller_makes_no_access(controller: Uhci, dma: Dma)
    requires
        !controller.running(),
    ensures
        controller.ticked(dma) == (controller, dma),
{
}

/// Whatever is written to a port, a low-speed device stays attached to it.
pub proof fn a_device_stays_attached(previous: u16, value: u16)
    ensures
        port_after_write(previous, value) & PORT_FIXED == PORT_FIXED,
{
    let next = port_after_write(previous, value);
    assert(port_after_write(previous, value) & PORT_FIXED == PORT_FIXED) by (bit_vector);
}

/// The end of a port reset enables the port.
pub proof fn the_end_of_a_port_reset_enables_the_port(previous: u16, value: u16)
    requires
        previous & PORT_RESET != 0,
        value & PORT_RESET == 0,
    ensures
        port_after_write(previous, value) & PORT_ENABLED != 0,
{
    assert(port_after_write(previous, value) & PORT_ENABLED != 0) by (bit_vector)
        requires
            previous & PORT_RESET != 0,
            value & PORT_RESET == 0,
    ;
}

/// The frame number can only be set while the controller is halted.
pub proof fn a_running_frame_counter_is_not_writable(controller: Uhci, data: Seq<u8>)
    requires
        controller.status & STS_HALTED == 0,
        data.len() == 2,
    ensures
        controller.after_write(FRNUM, data) == controller,
{
}

/// A transfer that the device is not ready for stays active, so that the next frame tries
/// it again.
pub proof fn a_nak_keeps_the_transfer_active(
    controller: Uhci,
    dma: Dma,
    td: TransferDescriptor,
    pid: UsbPid,
)
    requires
        td.control & TD_CTRL_ACTIVE != 0,
    ensures
        ({
            let (after, dma2, td2, result) = controller.answered(dma, td, pid, Answer::Nak);
            &&& after == controller && dma2 == dma
            &&& td2.control & TD_CTRL_ACTIVE != 0
            &&& td2.control & TD_CTRL_NAK != 0
            &&& result == Ok::<TdResult, UhciError>(TdResult::StopQueue)
        }),
{
    let control = td.control;
    assert((control | TD_CTRL_NAK) & TD_CTRL_NAK != 0 && (control & TD_CTRL_ACTIVE != 0 ==> (control
        | TD_CTRL_NAK) & TD_CTRL_ACTIVE != 0)) by (bit_vector);
}

/// Whether `after` results from `before` by at most `n` accesses, each inside its mapping,
/// with the mappings unchanged.
pub open spec fn within(before: Dma, after: Dma, n: nat) -> bool {
    &&& after.regions == before.regions
    &&& after.trace.answers == before.trace.answers
    &&& before.trace.accesses.len() <= after.trace.accesses.len()
        <= before.trace.accesses.len() + n
    &&& forall|i: int|
        #![trigger after.trace.accesses[i]]
        before.trace.accesses.len() <= i < after.trace.accesses.len()
            ==> crate::guest_memory::inside(after.trace.accesses[i])
    &&& forall|i: int|
        #![trigger after.trace.accesses[i]]
        0 <= i < before.trace.accesses.len() ==> after.trace.accesses[i]
            == before.trace.accesses[i]
}

proof fn lemma_read_within(dma: Dma, address: u64, length: nat)
    requires
        dma.valid(),
    ensures
        within(dma, dma.read(address, length).0, 1),
{
    crate::guest_memory::accesses_stay_inside_mappings(dma, address, Seq::new(length, |i: int| 0u8));
}

proof fn lemma_write_within(dma: Dma, address: u64, data: Seq<u8>)
    requires
        dma.valid(),
    ensures
        within(dma, dma.write(address, data).0, 1),
{
    crate::guest_memory::accesses_stay_inside_mappings(dma, address, data);
}

proof fn lemma_within_trans(a: Dma, b: Dma, c: Dma, m: nat, n: nat)
    requires
        within(a, b, m),
        within(b, c, n),
    ensures
        within(a, c, m + n),
{
    assert forall|i: int|
        #![trigger c.trace.accesses[i]]
        a.trace.accesses.len() <= i < c.trace.accesses.len() implies crate::guest_memory::inside(
        c.trace.accesses[i],
    ) by {
        if i < b.trace.accesses.len() {
            assert(c.trace.accesses[i] == b.trace.accesses[i]);
        }
    }
    assert forall|i: int|
        #![trigger c.trace.accesses[i]]
        0 <= i < a.trace.accesses.len() implies c.trace.accesses[i] == a.trace.accesses[i] by {
        assert(c.trace.accesses[i] == b.trace.accesses[i]);
    }
}

proof fn lemma_served_within(controller: Uhci, dma: Dma, td: TransferDescriptor)
    requires
        dma.valid(),
    ensures
        within(dma, controller.served(dma, td).1, 1),
        controller.served(dma, td).1.valid(),
{
    let buffer = td.buffer as u64;
    lemma_read_within(dma, buffer, token_length(td.token));
    if let Some(pid) = token_pid(td.token) {
        if let Some(port) = controller.port_of(token_address(td.token)) {
            let (bus, answer) = controller.bus.after_packet(
                port,
                pid,
                token_endpoint(td.token),
                Seq::empty(),
                token_length(td.token),
            );
            if let Answer::Success(input) = answer {
                lemma_write_within(dma, buffer, input);
            }
        }
    }
}

proof fn lemma_stepped_within(controller: Uhci, dma: Dma, address: u32, queue: Option<QueueHead>)
    requires
        dma.valid(),
    ensures
        within(dma, controller.stepped(dma, address, queue).1, 4),
        controller.stepped(dma, address, queue).1.valid(),
{
    let (dma2, read) = descriptor(dma, address);
    lemma_read_within(dma, address as u64, 16);
    if let Ok(td) = read {
        let (after, dma3, td2, result) = controller.served(dma2, td);
        lemma_served_within(controller, dma2, td);
        lemma_within_trans(dma, dma2, dma3, 1, 1);
        let (dma4, stored) = control_written(dma3, address, td2);
        lemma_write_within(
            dma3,
            (address + 4) as u64,
            crate::bytes::le32_bytes(td2.control),
        );
        lemma_within_trans(dma, dma3, dma4, 2, 1);
        if let Some(head) = queue {
            let head2 = QueueHead { element: td2.link, ..head };
            let (dma5, advanced) = element_written(dma4, head2);
            lemma_write_within(
                dma4,
                (head.address + 4) as u64,
                crate::bytes::le32_bytes(td2.link),
            );
            lemma_within_trans(dma, dma4, dma5, 3, 1);
        }
    }
}

proof fn lemma_walked_within(
    controller: Uhci,
    dma: Dma,
    link: u32,
    queue: Option<QueueHead>,
    seen_queues: Set<u32>,
    seen_descriptors: Set<u32>,
    left: nat,
)
    requires
        dma.valid(),
    ensures
        within(
            dma,
            controller.walked(dma, link, queue, seen_queues, seen_descriptors, left).1,
            4 * left,
        ),
    decreases left,
{
    let address = link & LINK_ADDRESS_MASK;
    if left == 0 || link & LINK_TERMINATE != 0 {
    } else if link & LINK_QUEUE_HEAD != 0 {
        if !seen_queues.contains(address) {
            let (dma2, head) = queue_head(dma, address);
            let between = dma.read_u32(address as u64).0;
            lemma_read_within(dma, address as u64, 4);
            lemma_read_within(between, (address + 4) as u64, 4);
            lemma_within_trans(dma, between, between.read_u32((address + 4) as u64).0, 1, 1);
            if let Ok(head) = head {
                let rest = (left - 1) as nat;
                let seen = seen_queues.insert(address);
                if head.element & LINK_TERMINATE != 0 {
                    lemma_walked_within(
                        controller,
                        dma2,
                        head.horizontal,
                        None,
                        seen,
                        seen_descriptors,
                        rest,
                    );
                    lemma_within_trans(
                        dma,
                        dma2,
                        controller.walked(
                            dma2,
                            head.horizontal,
                            None,
                            seen,
                            seen_descriptors,
                            rest,
                        ).1,
                        2,
                        4 * rest,
                    );
                } else {
                    lemma_walked_within(
                        controller,
                        dma2,
                        head.element,
                        Some(head),
                        seen,
                        seen_descriptors,
                        rest,
                    );
                    lemma_within_trans(
                        dma,
                        dma2,
                        controller.walked(
                            dma2,
                            head.element,
                            Some(head),
                            seen,
                            seen_descriptors,
                            rest,
                        ).1,
                        2,
                        4 * rest,
                    );
                }
            }
        }
    } else if !seen_descriptors.contains(address) {
        let (after, dma2, step) = controller.stepped(dma, address, queue);
        lemma_stepped_within(controller, dma, address, queue);
        if let Ok((next, next_queue)) = step {
            let rest = (left - 1) as nat;
            let seen = seen_descriptors.insert(address);
            lemma_walked_within(after, dma2, next, next_queue, seen_queues, seen, rest);
            lemma_within_trans(
                dma,
                dma2,
                after.walked(dma2, next, next_queue, seen_queues, seen, rest).1,
                4,
                4 * rest,
            );
        }
    }
}

/// Whatever the guest's schedule holds, a tick makes a bounded number of accesses, each of
/// them inside a mapping, and leaves the mappings as they are.
pub proof fn a_tick_is_bounded_and_stays_inside_the_mappings(controller: Uhci, dma: Dma)
    requires
        dma.valid(),
    ensures
        within(dma, controller.ticked(dma).1, 1 + 4 * MAX_SCHEDULE_ENTRIES as nat),
{
    if controller.running() {
        let entry = (controller.frame_list_base + 4 * (controller.frame_number & 0x03ff)) as u64;
        let (dma2, link) = dma.read_u32(entry);
        lemma_read_within(dma, entry, 4);
        if let Some(link) = link {
            let left = MAX_SCHEDULE_ENTRIES as nat;
            lemma_walked_within(controller, dma2, link, None, Set::empty(), Set::empty(), left);
            lemma_within_trans(
                dma,
                dma2,
                controller.walked(dma2, link, None, Set::empty(), Set::empty(), left).1,
                1,
                4 * left,
            );
        }
    }
}

/// A frame whose accesses all succeed advances the frame number, which counts modulo 2048.
pub proof fn a_frame_advances_the_frame_number(controller: Uhci, dma: Dma)
    requires
        controller.running(),
        controller.frame_number <= 0x07ff,
        controller.framed(dma).2 is Ok,
    ensures
        controller.ticked(dma).0.frame_number == (controller.frame_number + 1) % 2048,
{
    let entry = (controller.frame_list_base + 4 * (controller.frame_number & 0x03ff)) as u64;
    let (dma2, link) = dma.read_u32(entry);
    lemma_walk_keeps_the_frame_number(
        controller,
        dma2,
        link->0,
        None,
        Set::empty(),
        Set::empty(),
        MAX_SCHEDULE_ENTRIES as nat,
    );
    let next = (controller.frame_number + 1) as u16;
    assert(next & 0x07ff == next % 2048) by (bit_vector);
}

proof fn lemma_walk_keeps_the_frame_number(
    controller: Uhci,
    dma: Dma,
    link: u32,
    queue: Option<QueueHead>,
    seen_queues: Set<u32>,
    seen_descriptors: Set<u32>,
    left: nat,
)
    ensures
        controller.walked(dma, link, queue, seen_queues, seen_descriptors, left).0.frame_number
            == controller.frame_number,
    decreases left,
{
    let address = link & LINK_ADDRESS_MASK;
    if left == 0 || link & LINK_TERMINATE != 0 {
    } else if link & LINK_QUEUE_HEAD != 0 {
        let (dma2, head) = queue_head(dma, address);
        if let Ok(head) = head {
            let rest = (left - 1) as nat;
            let seen = seen_queues.insert(address);
            lemma_walk_keeps_the_frame_number(
                controller,
                dma2,
                head.horizontal,
                None,
                seen,
                seen_descriptors,
                rest,
            );
            lemma_walk_keeps_the_frame_number(
                controller,
                dma2,
                head.element,
                Some(head),
                seen,
                seen_descriptors,
                rest,
            );
        }
    } else {
        let (after, dma2, step) = controller.stepped(dma, address, queue);
        assert(after.frame_number == controller.frame_number);
        if let Ok((next, next_queue)) = step {
            lemma_walk_keeps_the_frame_number(
                after,
                dma2,
                next,
                next_queue,
                seen_queues,
                seen_descriptors.insert(address),
                (left - 1) as nat,
            );
        }
    }
}

} // verus!
