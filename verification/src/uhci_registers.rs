//! What a driver of the USB controller brings about through its registers, and what becomes of
//! descriptors that ask for nothing.
use vstd::prelude::*;

use crate::guest_memory::Dma;
use crate::uhci::{TdResult, TransferDescriptor, Uhci, UhciError};

verus! {

proof fn lemma_status_clear(status: u16, value: u16, k: u16)
    by (bit_vector)
    requires
        k < 16,
    ensures
        ((status & !(value & 0x001f)) >> k) % 2 == (if k < 5 && (value >> k) % 2 == 1 {
            0u16
        } else {
            (status >> k) % 2
        }),
        ((value & 0x001f) & 1 != 0) == (value % 2 == 1),
        (value & 6 != 0) == (value / 2 % 4 != 0),
        (value & !1u16) & 1 == 0,
        (status | 0x30) / 32 % 2 == 1,
        (status | 0x30) / 16 % 2 == 1,
{
}

/// A status bit is cleared by writing it as one, and by nothing else; the five lowest bits can be
/// cleared so. With the lowest one go the causes of the interrupt.
pub proof fn writing_a_status_bit_clears_it(controller: Uhci, value: u16, k: u16)
    requires
        k < 16,
    ensures
        ({
            let after = controller.after_write(2, crate::bytes::le16_bytes(value));
            &&& (after.status >> k) % 2 == (if k < 5 && (value >> k) % 2 == 1 {
                0u16
            } else {
                (controller.status >> k) % 2
            })
            &&& after.interrupt_causes == (if value % 2 == 1 {
                0u8
            } else {
                controller.interrupt_causes
            })
            &&& after.bus == controller.bus && after.command == controller.command
        }),
{
    crate::bytes::le16_round_trip(value);
    lemma_status_clear(controller.status, value, k);
}

proof fn lemma_halves(base: u32, half: u32)
    by (bit_vector)
    requires
        half < 0x1_0000,
    ensures
        (base & 0xffff_0000) | (half & 0xf000) == base - base % 0x1_0000 + (half - half % 0x1000),
        (base & 0x0000_ffff) | (half << 16) == base % 0x1_0000 + 0x1_0000 * half,
{
}

/// The address of the frame list can be written in two halves, each of which leaves the other as
/// it is. It is a multiple of 4096.
pub proof fn the_frame_list_has_two_halves(controller: Uhci, low: u16, high: u16)
    ensures
        ({
            let first = controller.after_write(8, crate::bytes::le16_bytes(low));
            let second = first.after_write(10, crate::bytes::le16_bytes(high));
            &&& first.frame_list_base == controller.frame_list_base - controller.frame_list_base
                % 0x1_0000 + (low - low % 0x1000)
            &&& second.frame_list_base == 0x1_0000 * high + (low - low % 0x1000)
        }),
{
    crate::bytes::le16_round_trip(low);
    crate::bytes::le16_round_trip(high);
    let first = controller.after_write(8, crate::bytes::le16_bytes(low));
    lemma_halves(controller.frame_list_base, low as u32);
    lemma_halves(first.frame_list_base, high as u32);
    assert((low & 0xf000) as u32 == low as u32 & 0xf000);
}

/// The length of a frame keeps seven bits.
pub proof fn the_frame_length_keeps_seven_bits(controller: Uhci, value: u8)
    ensures
        controller.after_write(12, seq![value]).sof_modify == value % 128,
{
    crate::bytes::lemma_byte_bits(value);
}

/// Either reset bit of the command, the second or the third lowest, starts everything over: the
/// controller is halted, no interrupt is enabled or raised, and both devices are attached and have
/// no address.
pub proof fn a_reset_starts_over(controller: Uhci, value: u16)
    requires
        value / 2 % 4 != 0,
    ensures
        ({
            let after = controller.after_write(0, crate::bytes::le16_bytes(value));
            &&& after.command == 0 && after.status == 0x20
            &&& after.interrupt_enable == 0 && after.interrupt_causes == 0
            &&& after.frame_number == 0 && after.frame_list_base == 0
            &&& after.ports.0 == 0x183 && after.ports.1 == 0x183
            &&& after.bus.keyboard.address == 0 && after.bus.mouse.address == 0
            &&& after.bus.keyboard.configuration == 0 && after.bus.mouse.configuration == 0
            &&& !after.interrupt.level && !after.schedule_faulted
        }),
{
    crate::bytes::le16_round_trip(value);
    lemma_status_clear(0, value, 0);
}

/// A descriptor that is not active is passed over: no device gets a packet, nothing is written,
/// and its queue stops.
pub proof fn an_inactive_descriptor_is_passed_over(
    controller: Uhci,
    dma: Dma,
    td: TransferDescriptor,
)
    requires
        td.control & 0x80_0000 == 0,
    ensures
        ({
            let (after, dma2, td2, result) = controller.served(dma, td);
            &&& after.bus == controller.bus && after.ports == controller.ports
            &&& dma2 == dma && td2 == td
            &&& result == Ok::<TdResult, UhciError>(TdResult::StopQueue)
        }),
{
}

/// An active descriptor of no known kind of packet stops the controller, with the error of the
/// controller, bit 4, in its status. No device gets a packet.
pub proof fn an_unknown_packet_stops_the_controller(
    controller: Uhci,
    dma: Dma,
    td: TransferDescriptor,
)
    requires
        td.control & 0x80_0000 != 0,
        td.token as u8 != 0x2d,
        td.token as u8 != 0x69,
        td.token as u8 != 0xe1,
    ensures
        ({
            let (after, dma2, td2, result) = controller.served(dma, td);
            &&& !after.running()
            &&& after.status / 32 % 2 == 1 && after.status / 16 % 2 == 1
            &&& after.bus == controller.bus && dma2 == dma && td2 == td
        }),
{
    lemma_status_clear(controller.status, controller.command, 0);
}

} // verus!
