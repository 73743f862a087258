//! What a driver's schedule leads to: which device gets a packet, and what the driver finds in
//! the descriptor afterwards.
use vstd::prelude::*;

use crate::guest_memory::Dma;
use crate::uhci::{QueueHead, TdResult, TransferDescriptor, Uhci, UhciError};
use crate::usb::control::Answer;
use crate::usb::{Bus, UsbPid};

verus! {

/// Bit `weight` of a number, which is a power of two.
pub open spec fn bit(number: int, weight: int) -> bool {
    number / weight % 2 == 1
}

/// The token of a packet as a driver writes it: the packet identifier, the address of the
/// device, its endpoint, the data toggle, and the length less one.
pub open spec fn token_of(pid: UsbPid, address: int, endpoint: int, toggle: int, length: int) -> int {
    pid_byte(pid) + 0x100 * address + 0x8000 * endpoint + 0x8_0000 * toggle + 0x20_0000 * ((length
        + 2047) % 2048)
}

pub open spec fn pid_byte(pid: UsbPid) -> int {
    match pid {
        UsbPid::Setup => 0x2d,
        UsbPid::In => 0x69,
        UsbPid::Out => 0xe1,
    }
}

proof fn lemma_token_fields(token: u32)
    by (bit_vector)
    ensures
        (token >> 8) & 0x7f == token / 0x100 % 128,
        (token >> 15) & 0x0f == token / 0x8000 % 16,
        token >> 21 == token / 0x20_0000,
        (token as u8) as u32 == token % 0x100,
{
}

proof fn lemma_length_field(next: u32)
    by (bit_vector)
    ensures
        next & 0x07ff == next % 2048,
{
}

/// The token of a packet names its kind, the address and the endpoint of a device, and the
/// length, up to 2047 bytes.
pub proof fn a_token_names_its_packet(
    token: u32,
    pid: UsbPid,
    address: int,
    endpoint: int,
    toggle: int,
    length: int,
)
    requires
        0 <= address < 128,
        0 <= endpoint < 16,
        0 <= toggle < 2,
        0 <= length < 2048,
        token == token_of(pid, address, endpoint, toggle, length),
    ensures
        crate::uhci::token_pid(token) == Some(pid),
        crate::uhci::token_address(token) == address,
        crate::uhci::token_endpoint(token) == endpoint,
        crate::uhci::token_length(token) == length,
{
    lemma_token_fields(token);
    let field = (length + 2047) % 2048;
    let high = toggle + 4 * field;
    vstd::arithmetic::div_mod::lemma_fundamental_div_mod_converse(
        token as int,
        0x100,
        address + 128 * (endpoint + 16 * high),
        pid_byte(pid),
    );
    vstd::arithmetic::div_mod::lemma_fundamental_div_mod_converse(
        token as int / 0x100,
        128,
        endpoint + 16 * high,
        address,
    );
    vstd::arithmetic::div_mod::lemma_fundamental_div_mod_converse(
        token as int,
        0x8000,
        endpoint + 16 * high,
        pid_byte(pid) + 0x100 * address,
    );
    vstd::arithmetic::div_mod::lemma_fundamental_div_mod_converse(
        token as int / 0x8000,
        16,
        high,
        endpoint,
    );
    vstd::arithmetic::div_mod::lemma_fundamental_div_mod_converse(
        token as int,
        0x20_0000,
        field,
        pid_byte(pid) + 0x100 * address + 0x8000 * endpoint + 0x8_0000 * toggle,
    );
    lemma_length_field((field + 1) as u32);
}

/// What a driver finds in the control word of a descriptor whose packet got an answer, and
/// whether the controller has reported an error.
pub open spec fn answer_shown(
    before: int,
    after: int,
    pid: UsbPid,
    length: int,
    answer: Answer,
) -> bool {
    match answer {
        // Not ready: the descriptor stays active, and is tried again.
        Answer::Nak => bit(after, 0x80_0000) && bit(after, 0x8_0000),
        // Stalled.
        Answer::Stall => !bit(after, 0x80_0000) && bit(after, 0x40_0000) && bit(after, 0x4_0000)
            == bit(before, 0x4_0000),
        // Nobody there: a time-out.
        Answer::NoDevice => !bit(after, 0x80_0000) && bit(after, 0x4_0000),
        Answer::Success(input) => if input.len() > length {
            // Babble, which also stalls.
            !bit(after, 0x80_0000) && bit(after, 0x10_0000) && bit(after, 0x40_0000)
        } else {
            // Done: no status bit is left, and the length less one is there.
            &&& after / 0x2_0000 % 0x80 == 0
            &&& after % 2048 == ((if pid == UsbPid::In {
                input.len() as int
            } else {
                length
            }) + 2047) % 2048
            &&& after / 0x100_0000 == before / 0x100_0000
        },
    }
}

proof fn lemma_control_words(control: u32, length: u32)
    by (bit_vector)
    requires
        control & 0x80_0000 != 0,
        length < 2048,
    ensures
        (control | 0x8_0000) / 0x80_0000 % 2 == 1,
        (control | 0x8_0000) / 0x8_0000 % 2 == 1,
        ((control & !0x80_0000u32) | 0x40_0000) / 0x80_0000 % 2 == 0,
        ((control & !0x80_0000u32) | 0x40_0000) / 0x40_0000 % 2 == 1,
        ((control & !0x80_0000u32) | 0x40_0000) / 0x4_0000 % 2 == control / 0x4_0000 % 2,
        ((control & !0x80_0000u32) | 0x4_0000) / 0x80_0000 % 2 == 0,
        ((control & !0x80_0000u32) | 0x4_0000) / 0x4_0000 % 2 == 1,
        ((control & !0x80_0000u32) | 0x50_0000) / 0x80_0000 % 2 == 0,
        ((control & !0x80_0000u32) | 0x50_0000) / 0x10_0000 % 2 == 1,
        ((control & !0x80_0000u32) | 0x50_0000) / 0x40_0000 % 2 == 1,
        ((control & !0xfe_07ffu32) | length) / 0x2_0000 % 0x80 == 0,
        ((control & !0xfe_07ffu32) | length) % 2048 == length,
        ((control & !0xfe_07ffu32) | length) / 0x100_0000 == control / 0x100_0000,
{
}

proof fn lemma_bits(control: u32)
    by (bit_vector)
    ensures
        control & 0x80_0000 != 0 ==> control / 0x80_0000 % 2 == 1,
        control & 0x80_0000 == 0 ==> control / 0x80_0000 % 2 == 0,
        control & 0x100_0000 != 0 ==> control / 0x100_0000 % 2 == 1,
        control & 0x100_0000 == 0 ==> control / 0x100_0000 % 2 == 0,
        control & 0x2000_0000 != 0 ==> control / 0x2000_0000 % 2 == 1,
        control & 0x2000_0000 == 0 ==> control / 0x2000_0000 % 2 == 0,
{
}

proof fn lemma_register_bits(port: u16, status: u16)
    by (bit_vector)
    ensures
        port & 4 != 0 ==> port / 4 % 2 == 1,
        port & 4 == 0 ==> port / 4 % 2 == 0,
        (status | 1) % 2 == 1,
        (status | 2) / 2 % 2 == 1,
        ((status | 2) | 1) / 2 % 2 == 1,
        ((status | 2) | 1) % 2 == 1,
{
}

proof fn lemma_low_bits(length: u32)
    by (bit_vector)
    requires
        length < 2048,
    ensures
        length & 0x7ff == length,
{
}

proof fn lemma_answer_shown(
    controller: Uhci,
    dma: Dma,
    td: TransferDescriptor,
    pid: UsbPid,
    answer: Answer,
)
    requires
        td.control & 0x80_0000 != 0,
        crate::uhci::token_length(td.token) < 2048,
        controller.answered(dma, td, pid, answer).3 is Ok,
    ensures
        answer_shown(
            td.control as int,
            controller.answered(dma, td, pid, answer).2.control as int,
            pid,
            crate::uhci::token_length(td.token) as int,
            answer,
        ),
        controller.answered(dma, td, pid, answer).0.bus == controller.bus,
{
    let length = crate::uhci::token_length(td.token);
    lemma_control_words(td.control, 0);
    if let Answer::Success(input) = answer {
        if input.len() <= length {
            let actual = if pid == UsbPid::In {
                input.len()
            } else {
                length
            };
            let field = ((actual + 2047) % 2048) as u32;
            lemma_low_bits(field);
            assert(crate::uhci::encoded_length(actual) == field);
            lemma_control_words(td.control, field);
        }
    }
}

/// An active descriptor for an address reaches the first enabled port whose device has that
/// address, and no other device; the driver finds the device's answer in the control word. Only
/// where no such device is there does it find a time-out, and no device got the packet. What a
/// device answers to a read is put where the descriptor says.
pub proof fn a_packet_reaches_the_device_with_its_address(
    controller: Uhci,
    dma: Dma,
    td: TransferDescriptor,
    pid: UsbPid,
    address: u8,
    endpoint: u8,
    toggle: int,
    length: int,
)
    requires
        bit(td.control as int, 0x80_0000),
        address < 128,
        endpoint < 16,
        0 <= toggle < 2,
        0 <= length <= 1280,
        pid == UsbPid::Setup ==> endpoint == 0,
        td.token == token_of(pid, address as int, endpoint as int, toggle, length),
    ensures
        ({
            let (after, dma2, td2, result) = controller.served(dma, td);
            let (fetched, sent) = if pid == UsbPid::In || length == 0 {
                (dma, Some(Seq::<u8>::empty()))
            } else {
                dma.read(td.buffer as u64, length as nat)
            };
            let first = bit(controller.ports.0 as int, 4) && controller.bus.keyboard.address
                == address;
            let second = bit(controller.ports.1 as int, 4) && controller.bus.mouse.address
                == address;
            let bus = controller.bus;
            match sent {
                None => after == controller && td2 == td && result is Err,
                Some(output) => if first {
                    let (keyboard, answer) = bus.keyboard.after_packet(
                        pid,
                        endpoint,
                        output,
                        length as nat,
                    );
                    &&& after.bus == Bus { keyboard, ..bus }
                    &&& result is Ok ==> answer_shown(
                        td.control as int,
                        td2.control as int,
                        pid,
                        length,
                        answer,
                    )
                    &&& delivered(fetched, dma2, td, pid, length, answer, result is Ok)
                } else if second {
                    let (mouse, answer) = bus.mouse.after_packet(
                        pid,
                        endpoint,
                        output,
                        length as nat,
                    );
                    &&& after.bus == Bus { mouse, ..bus }
                    &&& result is Ok ==> answer_shown(
                        td.control as int,
                        td2.control as int,
                        pid,
                        length,
                        answer,
                    )
                    &&& delivered(fetched, dma2, td, pid, length, answer, result is Ok)
                } else {
                    &&& result is Ok
                    &&& after.bus == bus
                    &&& dma2 == fetched
                    &&& bit(after.status as int, 2)
                    &&& answer_shown(
                        td.control as int,
                        td2.control as int,
                        pid,
                        length,
                        Answer::NoDevice,
                    )
                },
            }
        }),
{
    a_token_names_its_packet(td.token, pid, address as int, endpoint as int, toggle, length);
    lemma_bits(td.control);
    lemma_register_bits(controller.ports.0, controller.status);
    lemma_register_bits(controller.ports.1, controller.status);
    lemma_control_words(td.control, 0);
    let (fetched, sent) = if pid == UsbPid::In || length == 0 {
        (dma, Some(Seq::<u8>::empty()))
    } else {
        dma.read(td.buffer as u64, length as nat)
    };
    if let Some(output) = sent {
        let port: usize = if bit(controller.ports.0 as int, 4) && controller.bus.keyboard.address
            == address {
            0
        } else {
            1
        };
        let (bus, answer) = controller.bus.after_packet(
            port,
            pid,
            endpoint,
            output,
            length as nat,
        );
        let reached = Uhci { bus, ..controller };
        if controller.port_of(address) is Some {
            assert(controller.served(dma, td) == reached.answered(fetched, td, pid, answer));
            if reached.answered(fetched, td, pid, answer).3 is Ok {
                lemma_answer_shown(reached, fetched, td, pid, answer);
            }
        }
    }
}

/// Whether guest memory got what a device answered to a read, at the place that the descriptor
/// names, and nothing else.
pub open spec fn delivered(
    before: Dma,
    after: Dma,
    td: TransferDescriptor,
    pid: UsbPid,
    length: int,
    answer: Answer,
    done: bool,
) -> bool {
    match answer {
        Answer::Success(input) => if pid == UsbPid::In && 0 < input.len() <= length {
            (after, done) == before.write(td.buffer as u64, input)
        } else {
            after == before && done
        },
        _ => after == before && done,
    }
}

/// A descriptor is sixteen bytes of guest memory: its link, its control word, its token and its
/// buffer.
pub proof fn a_descriptor_is_four_numbers(dma: Dma, address: u32)
    ensures
        ({
            let (after, bytes) = dma.read(address as u64, 16);
            let (dma2, read) = crate::uhci::descriptor(dma, address);
            &&& dma2 == after
            &&& bytes is None ==> read is Err
            &&& bytes matches Some(b) ==> {
                &&& read is Ok
                &&& read->Ok_0.link == crate::bytes::number_at(b, 0, 4)
                &&& read->Ok_0.control == crate::bytes::number_at(b, 4, 4)
                &&& read->Ok_0.token == crate::bytes::number_at(b, 8, 4)
                &&& read->Ok_0.buffer == crate::bytes::number_at(b, 12, 4)
            }
        }),
{
    if let Some(b) = dma.read(address as u64, 16).1 {
        crate::bytes::le32_is_a_number(b, 0);
        crate::bytes::le32_is_a_number(b, 4);
        crate::bytes::le32_is_a_number(b, 8);
        crate::bytes::le32_is_a_number(b, 12);
    }
}

/// The number that a read of four bytes delivers.
pub open spec fn number_read(dma: Dma, address: int) -> (Dma, Option<int>) {
    let (after, bytes) = dma.read(address as u64, 4);
    match bytes {
        None => (after, None),
        Some(b) => (after, Some(crate::bytes::number_at(b, 0, 4) as int)),
    }
}

proof fn lemma_number_read(dma: Dma, address: u64)
    ensures
        dma.read_u32(address).0 == number_read(dma, address as int).0,
        dma.read_u32(address).1 is None <==> number_read(dma, address as int).1 is None,
        dma.read_u32(address).1 matches Some(value) ==> number_read(dma, address as int).1 == Some(
            value as int,
        ),
{
    if let Some(b) = dma.read(address, 4).1 {
        crate::bytes::le32_is_a_number(b, 0);
    }
}

proof fn lemma_link_bits(link: u32)
    by (bit_vector)
    ensures
        link & 1 == link % 2,
        link & 2 == 2 * (link / 2 % 2),
        link & 4 == 4 * (link / 4 % 2),
        link & 0xffff_fff0 == link - link % 16,
{
}

proof fn lemma_frame_bits(frame: u16)
    by (bit_vector)
    ensures
        frame & 0x03ff == frame % 1024,
{
}

/// A frame starts at the entry of the frame list that its number, counted modulo 1024, selects.
pub proof fn a_frame_starts_at_its_entry(controller: Uhci, dma: Dma)
    requires
        controller.running(),
    ensures
        ({
            let entry = controller.frame_list_base + 4 * (controller.frame_number % 1024);
            let (dma2, link) = number_read(dma, entry);
            let (after, dma3) = controller.ticked(dma);
            match link {
                None => dma3 == dma2 && after == controller.faulted(),
                Some(link) => dma3 == controller.walked(
                    dma2,
                    link as u32,
                    None,
                    Set::empty(),
                    Set::empty(),
                    256,
                ).1,
            }
        }),
{
    lemma_frame_bits(controller.frame_number);
    let entry = (controller.frame_list_base + 4 * (controller.frame_number % 1024)) as u64;
    lemma_number_read(dma, entry);
}

/// A link ends the schedule where its lowest bit is set. Its next bit tells a queue from a
/// descriptor, and the rest is the address, a multiple of sixteen. Of a queue the schedule goes
/// on with the element, at the second word, or, where that ends, with the queue beside it, at the
/// first word.
pub proof fn links_lead_through_the_schedule(
    controller: Uhci,
    dma: Dma,
    link: u32,
    queue: Option<QueueHead>,
    queues: Set<u32>,
    descriptors: Set<u32>,
    left: nat,
)
    requires
        left > 0,
    ensures
        ({
            let address = link - link % 16;
            let walk = controller.walked(dma, link, queue, queues, descriptors, left);
            let (between, beside) = number_read(dma, address);
            let (after, element) = number_read(between, address + 4);
            if bit(link as int, 1) {
                walk == (controller, dma, Ok::<(), UhciError>(()))
            } else if bit(link as int, 2) {
                if queues.contains(address as u32) {
                    walk == (controller, dma, Ok::<(), UhciError>(()))
                } else {
                    match (beside, element) {
                        (Some(beside), Some(element)) => walk == controller.walked(
                            after,
                            (if bit(element, 1) {
                                beside
                            } else {
                                element
                            }) as u32,
                            (if bit(element, 1) {
                                None
                            } else {
                                Some(
                                    QueueHead {
                                        address: address as u32,
                                        horizontal: beside as u32,
                                        element: element as u32,
                                    },
                                )
                            }),
                            queues.insert(address as u32),
                            descriptors,
                            (left - 1) as nat,
                        ),
                        _ => walk.0 == controller && walk.2 is Err,
                    }
                }
            } else if descriptors.contains(address as u32) {
                walk == (controller, dma, Ok::<(), UhciError>(()))
            } else {
                let (served, dma2, step) = controller.stepped(dma, address as u32, queue);
                match step {
                    Err(error) => walk == (served, dma2, Err::<(), UhciError>(error)),
                    Ok((next, next_queue)) => walk == served.walked(
                        dma2,
                        next,
                        next_queue,
                        queues,
                        descriptors.insert(address as u32),
                        (left - 1) as nat,
                    ),
                }
            }
        }),
{
    lemma_link_bits(link);
    let address = (link - link % 16) as u64;
    lemma_number_read(dma, address);
    let between = dma.read_u32(address).0;
    lemma_number_read(between, (address + 4) as u64);
    if let Some(element) = between.read_u32((address + 4) as u64).1 {
        lemma_link_bits(element);
    }
}

/// A descriptor that was served is written back: its control word, at its second word. A queue
/// whose descriptor is done goes on to the next one, by its second word; the schedule then
/// follows that link if its third bit is set, and else the queue beside. Where the descriptor is
/// not done, the queue keeps it.
pub proof fn a_served_descriptor_is_written_back(
    controller: Uhci,
    dma: Dma,
    address: u32,
    queue: Option<QueueHead>,
)
    requires
        address <= 0xffff_fff0,
        crate::uhci::descriptor(dma, address).1 is Ok,
    ensures
        ({
            let (dma2, read) = crate::uhci::descriptor(dma, address);
            let (served, dma3, td, result) = controller.served(dma2, read->Ok_0);
            let (dma4, stored) = dma3.write(
                (address + 4) as u64,
                crate::bytes::le32_bytes(td.control),
            );
            let (after, last, step) = controller.stepped(dma, address, queue);
            &&& after == served
            &&& match result {
                Err(error) => last == dma3 && step is Err,
                Ok(outcome) => if !stored {
                    last == dma4 && step is Err
                } else {
                    match queue {
                        None => last == dma4 && step == Ok::<
                            (u32, Option<QueueHead>),
                            UhciError,
                        >((td.link, None)),
                        Some(head) => if outcome == TdResult::Complete {
                            let (dma5, advanced) = dma4.write(
                                (head.address + 4) as u64,
                                crate::bytes::le32_bytes(td.link),
                            );
                            &&& last == dma5
                            &&& !advanced ==> step is Err
                            &&& advanced ==> step is Ok && step->Ok_0.0 == (if bit(
                                td.link as int,
                                4,
                            ) {
                                td.link
                            } else {
                                head.horizontal
                            })
                        } else {
                            last == dma4 && step == Ok::<(u32, Option<QueueHead>), UhciError>(
                                (head.horizontal, None),
                            )
                        },
                    }
                },
            }
        }),
{
    let (dma2, read) = crate::uhci::descriptor(dma, address);
    let td = controller.served(dma2, read->Ok_0).2;
    lemma_link_bits(td.link);
}

/// The registers lie where a driver reads them.
pub proof fn registers_lie_in_their_places(controller: Uhci)
    ensures
        ({
            let block = controller.registers();
            &&& block.len() == 32
            &&& crate::bytes::number_at(block, 0, 2) == controller.command
            &&& crate::bytes::number_at(block, 2, 2) == controller.status
            &&& crate::bytes::number_at(block, 4, 2) == controller.interrupt_enable
            &&& crate::bytes::number_at(block, 6, 2) == controller.frame_number
            &&& crate::bytes::number_at(block, 8, 4) == controller.frame_list_base
            &&& block[12] == controller.sof_modify
            &&& crate::bytes::number_at(block, 16, 2) == controller.ports.0
            &&& crate::bytes::number_at(block, 18, 2) == controller.ports.1
        }),
{
    let block = controller.registers();
    crate::bytes::le_bytes_hold_the_value(controller.command, controller.frame_list_base, 0);
    crate::bytes::le_bytes_hold_the_value(controller.status, 0, 0);
    crate::bytes::le_bytes_hold_the_value(controller.interrupt_enable, 0, 0);
    crate::bytes::le_bytes_hold_the_value(controller.frame_number, 0, 0);
    crate::bytes::le_bytes_hold_the_value(controller.ports.0, 0, 0);
    crate::bytes::le_bytes_hold_the_value(controller.ports.1, 0, 0);
    assert(block.subrange(0, 2) =~= crate::bytes::le16_bytes(controller.command));
    assert(block.subrange(2, 4) =~= crate::bytes::le16_bytes(controller.status));
    assert(block.subrange(4, 6) =~= crate::bytes::le16_bytes(controller.interrupt_enable));
    assert(block.subrange(6, 8) =~= crate::bytes::le16_bytes(controller.frame_number));
    assert(block.subrange(8, 12) =~= crate::bytes::le32_bytes(controller.frame_list_base));
    assert(block.subrange(16, 18) =~= crate::bytes::le16_bytes(controller.ports.0));
    assert(block.subrange(18, 20) =~= crate::bytes::le16_bytes(controller.ports.1));
}

proof fn lemma_register_values(value: u16, status: u16)
    by (bit_vector)
    ensures
        value & 0x000f == value % 16,
        value & 0x07ff == value % 2048,
        value & 0x00ff == value % 256,
        status & !(value & 0x001f) == status - (status & (value & 0x001f)),
        (status & 0x20) / 32 == status / 32 % 2,
        value & 6 == 2 * (value / 2 % 4),
        (value & 0x00ff) & 1 == value % 2,
        (status | 0x20) / 32 % 2 == 1,
        (status & !0x20u16) / 32 % 2 == 0,
{
}

/// What a driver writes to the registers is what they hold: the interrupts that it enables, the
/// frame list, which lies at a multiple of 4096, and the frame number, while the controller is
/// halted. The controller runs while the lowest bit of its command is set, and the halted bit is
/// the opposite of it.
pub proof fn registers_take_what_is_written(controller: Uhci, value: u16, wide: u32)
    ensures
        ({
            let (short, long) = (crate::bytes::le16_bytes(value), crate::bytes::le32_bytes(wide));
            let commanded = controller.after_write(0, short);
            &&& controller.after_write(4, short).interrupt_enable == value % 16
            &&& controller.after_write(8, long).frame_list_base == wide - wide % 4096
            &&& controller.after_write(6, short).frame_number == (if bit(
                controller.status as int,
                32,
            ) {
                value as int % 2048
            } else {
                controller.frame_number as int
            })
            &&& value / 2 % 4 == 0 ==> commanded.command == value % 256
            &&& value / 2 % 4 == 0 ==> (bit(commanded.status as int, 32) <==> value % 2 == 0)
            &&& value / 2 % 4 == 0 && !controller.schedule_faulted ==> (commanded.running() <==> value
                % 2 == 1)
        }),
{
    crate::bytes::le16_round_trip(value);
    crate::bytes::le32_round_trip(wide);
    lemma_register_values(value, controller.status);
    assert(wide & 0xffff_f000 == wide - wide % 4096) by (bit_vector);
    let status = controller.status;
    assert((status & 0x20 != 0) == bit(status as int, 32)) by {
        assert(status & 0x20 == 32 * (status / 32 % 2)) by (bit_vector);
    }
}

proof fn lemma_status_bits(status: u16)
    by (bit_vector)
    ensures
        status & 1 == status % 2,
        status & 2 == 2 * (status / 2 % 2),
        status & 4 == 4 * (status / 4 % 2),
        status & 8 == 8 * (status / 8 % 2),
        status & 0x18 == 8 * (status / 8 % 4),
{
}

proof fn lemma_cause_bits(causes: u8)
    by (bit_vector)
    ensures
        causes & 1 == causes % 2,
        causes & 2 == 2 * (causes / 2 % 2),
        (causes | 1) % 2 == 1,
        (causes | 2) / 2 % 2 == 1,
        ((causes | 1) | 2) % 2 == 1,
        ((causes | 1) | 2) / 2 % 2 == 1,
{
}

/// The interrupt line is raised while the status has a condition that the driver has enabled: a
/// descriptor that asked for it is done (bit 2), or was short (bit 3); a transfer failed (bit 0);
/// a device resumes (bit 1). Errors of the host are not masked.
pub proof fn the_line_follows_the_enabled_conditions(controller: Uhci)
    ensures
        ({
            let status = controller.status as int;
            let enabled = controller.interrupt_enable as int;
            let causes = controller.interrupt_causes as int;
            controller.line_updated().interrupt.level <==> {
                ||| bit(status, 1) && bit(causes, 1) && bit(enabled, 4)
                ||| bit(status, 1) && bit(causes, 2) && bit(enabled, 8)
                ||| bit(status, 2) && bit(enabled, 1)
                ||| bit(status, 4) && bit(enabled, 2)
                ||| bit(status, 8)
                ||| bit(status, 16)
            }
        }),
{
    lemma_status_bits(controller.status);
    lemma_status_bits(controller.interrupt_enable);
    lemma_cause_bits(controller.interrupt_causes);
    let status = controller.status as int;
    assert(status / 16 % 2 == status / 8 / 2 % 2);
}

/// A descriptor that is done interrupts where its bit 24 asks for it, and a short one where its
/// bit 29 does; only a short one stops its queue.
pub proof fn a_done_descriptor_interrupts_where_it_asks(
    controller: Uhci,
    dma: Dma,
    td: TransferDescriptor,
    pid: UsbPid,
    actual: nat,
)
    requires
        td.control & 0x80_0000 != 0,
        actual < 2048,
    ensures
        ({
            let (after, dma2, td2, result) = controller.transferred(dma, td, pid, actual);
            let short = pid == UsbPid::In && bit(td.control as int, 0x2000_0000) && actual
                < crate::uhci::token_length(td.token);
            &&& bit(td.control as int, 0x100_0000) ==> bit(after.status as int, 1) && bit(
                after.interrupt_causes as int,
                1,
            )
            &&& short ==> bit(after.status as int, 1) && bit(after.interrupt_causes as int, 2)
            &&& !short && !bit(td.control as int, 0x100_0000) ==> after == controller
            &&& result == Ok::<TdResult, UhciError>(
                if short {
                    TdResult::ShortPacket
                } else {
                    TdResult::Complete
                },
            )
        }),
{
    let field = ((actual + 2047) % 2048) as u32;
    lemma_low_bits(field);
    assert(crate::uhci::encoded_length(actual) == field);
    lemma_control_words(td.control, field);
    let control = controller.transferred(dma, td, pid, actual).2.control;
    lemma_bits(td.control);
    lemma_bits(control);
    lemma_register_bits(0, controller.status);
    lemma_register_bits(0, controller.status | 1);
    lemma_cause_bits(controller.interrupt_causes);
    let (whole, before) = (control as int, td.control as int);
    assert(whole / 0x100_0000 == before / 0x100_0000);
    assert(whole / 0x2000_0000 == whole / 0x100_0000 / 0x20);
    assert(before / 0x2000_0000 == before / 0x100_0000 / 0x20);
}

proof fn lemma_port_write(previous: u16, value: u16)
    by (bit_vector)
    ensures
        ({
            let next = crate::uhci::port_after_write(previous, value);
            &&& value / 2 % 2 == 1 ==> next / 2 % 2 == 0
            &&& value / 2 % 2 == 0 ==> next / 2 % 2 == previous / 2 % 2
            &&& previous % 2 == 1 && !(previous / 512 % 2 == 1 && value / 512 % 2 == 0) ==> next / 4
                % 2 == value / 4 % 2
            &&& next / 512 % 2 == value / 512 % 2
            &&& value / 8 % 2 == 1 && previous / 4 % 2 == next / 4 % 2 && !(previous / 512 % 2 == 1
                && value / 512 % 2 == 0) ==> next / 8 % 2 == 0
            &&& previous / 4 % 2 != next / 4 % 2 ==> next / 8 % 2 == 1
        }),
{
}

/// A driver acknowledges a change of a port by writing a one to its bit. It enables the port and
/// resets it by the bits of their own. A change of the enabled bit is reported.
pub proof fn a_port_follows_its_driver(previous: u16, value: u16)
    ensures
        ({
            let next = crate::uhci::port_after_write(previous, value) as int;
            let (before, written) = (previous as int, value as int);
            &&& bit(written, 2) ==> !bit(next, 2)
            &&& !bit(written, 2) ==> bit(next, 2) == bit(before, 2)
            &&& bit(before, 1) && !(bit(before, 512) && !bit(written, 512)) ==> bit(next, 4)
                == bit(written, 4)
            &&& bit(next, 512) == bit(written, 512)
            &&& bit(written, 8) && bit(before, 4) == bit(next, 4) && !(bit(before, 512) && !bit(
                written,
                512,
            )) ==> !bit(next, 8)
            &&& bit(before, 4) != bit(next, 4) ==> bit(next, 8)
        }),
{
    lemma_port_write(previous, value);
}

} // verus!
