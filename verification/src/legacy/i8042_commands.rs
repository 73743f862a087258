//! What a driver of the PS/2 controller brings about by the bytes that it writes to the two ports,
//! and what it then reads.
use vstd::prelude::*;

use crate::legacy::i8042::{Ps2, MAX_DATA_BUFFER};

verus! {

/// Whether the controller is at rest: nothing is left to read or to handle, and no command waits
/// for its parameter.
pub open spec fn at_rest(state: Ps2) -> bool {
    &&& state.output.len() == 0
    &&& state.output_aux.len() == 0
    &&& state.input.len() == 0
    &&& state.pending_mouse_events.len() == 0
    &&& state.pending_command is None
    &&& state.pending_mouse_command is None
    &&& state.pending_keyboard_command is None
}

proof fn lemma_answer_read(state: Ps2, bytes: Seq<u8>, aux: bool)
    requires
        state.output.len() == 0,
        state.output_aux.len() == 0,
        state.input.len() == 0,
        0 < bytes.len() <= MAX_DATA_BUFFER,
    ensures
        ({
            let after = state.answered(bytes, aux);
            &&& after.output == bytes
            &&& after.next_is_aux() == aux
            &&& after.read(0).1 == bytes[0]
        }),
{
    let after = state.answered(bytes, aux);
    assert(state.output + bytes =~= bytes);
    assert(after.output_aux =~= Seq::new(bytes.len(), |i: int| aux));
    assert(after.input =~= Seq::empty());
}

/// The command byte is read back by 0x20 as it was written by 0x60, and the output port by 0xd0
/// as it was written by 0xd1.
pub proof fn written_bytes_are_kept(state: Ps2, byte: u8)
    requires
        at_rest(state),
    ensures
        state.written(4, 0x60).written(0, byte).written(4, 0x20).read(0).1 == byte,
        state.written(4, 0xd1).written(0, byte).written(4, 0xd0).read(0).1 == byte,
        state.written(4, 0x60).written(0, byte).ctr == byte,
        state.written(1, byte).read(1).1 == byte,
{
    let first = state.written(4, 0x60).written(0, byte);
    let second = state.written(4, 0xd1).written(0, byte);
    lemma_answer_read(first, seq![first.ctr], false);
    lemma_answer_read(second, seq![second.control_reg], false);
}

/// A driver that tests the controller finds it working: 0x55 for the controller, and zero for
/// each of its two ports.
pub proof fn the_tests_succeed(state: Ps2)
    requires
        at_rest(state),
    ensures
        state.written(4, 0xaa).read(0).1 == 0x55,
        state.written(4, 0xab).read(0).1 == 0,
        state.written(4, 0xa9).read(0).1 == 0,
        !state.written(4, 0xaa).next_is_aux(),
{
    lemma_answer_read(state, seq![0x55u8], false);
    lemma_answer_read(state, seq![0u8], false);
}

/// What is written after 0xd2 is read as a byte of the keyboard, after 0xd3 as one of the mouse.
pub proof fn a_byte_can_be_looped_back(state: Ps2, byte: u8)
    requires
        at_rest(state),
    ensures
        ({
            let keyboard = state.written(4, 0xd2).written(0, byte);
            let mouse = state.written(4, 0xd3).written(0, byte);
            &&& keyboard.output == seq![byte] && !keyboard.next_is_aux()
            &&& mouse.output == seq![byte] && mouse.next_is_aux()
            &&& keyboard.pending_command is None && mouse.pending_command is None
        }),
{
    let (first, second) = (state.written(4, 0xd2), state.written(4, 0xd3));
    lemma_answer_read(first, seq![byte], false);
    lemma_answer_read(second, seq![byte], true);
}

proof fn lemma_disable_bits(ctr: u8)
    by (bit_vector)
    ensures
        (ctr | 0x10) / 16 % 2 == 1 && (ctr & !0x10u8) / 16 % 2 == 0,
        (ctr | 0x20) / 32 % 2 == 1 && (ctr & !0x20u8) / 32 % 2 == 0,
        (ctr | 0x10) % 16 == ctr % 16 && (ctr | 0x10) / 32 == ctr / 32,
        (ctr & !0x10u8) % 16 == ctr % 16 && (ctr & !0x10u8) / 32 == ctr / 32,
        (ctr | 0x20) % 32 == ctr % 32 && (ctr | 0x20) / 64 == ctr / 64,
        (ctr & !0x20u8) % 32 == ctr % 32 && (ctr & !0x20u8) / 64 == ctr / 64,
{
}

/// The keyboard is switched off by 0xad and on by 0xae, the mouse by 0xa7 and 0xa8. A device that
/// is off makes no bytes. Bits 4 and 5 of the command byte show which of them is off, and no other
/// bit changes.
pub proof fn devices_are_switched(
    state: Ps2,
    key: u32,
    pressed: bool,
    buttons: u8,
    dx: i16,
    dy: i16,
)
    ensures
        ({
            let (k_off, k_on) = (state.written(4, 0xad), state.written(4, 0xae));
            let (m_off, m_on) = (state.written(4, 0xa7), state.written(4, 0xa8));
            &&& k_off.keyed(key, pressed) == (k_off, false)
            &&& m_off.moused(buttons, dx, dy) == (m_off, false)
            &&& k_on.keyboard_enabled && m_on.mouse_enabled
            &&& k_off.mouse_enabled == state.mouse_enabled
            &&& m_off.keyboard_enabled == state.keyboard_enabled
            &&& k_off.ctr / 16 % 2 == 1 && k_on.ctr / 16 % 2 == 0
            &&& m_off.ctr / 32 % 2 == 1 && m_on.ctr / 32 % 2 == 0
            &&& k_off.ctr % 16 == state.ctr % 16 && k_off.ctr / 32 == state.ctr / 32
            &&& k_on.ctr % 16 == state.ctr % 16 && k_on.ctr / 32 == state.ctr / 32
            &&& m_off.ctr % 32 == state.ctr % 32 && m_off.ctr / 64 == state.ctr / 64
            &&& m_on.ctr % 32 == state.ctr % 32 && m_on.ctr / 64 == state.ctr / 64
            &&& m_off.pending_mouse_events.len() == 0
        }),
{
    lemma_disable_bits(state.ctr);
}

/// The state after a byte for the mouse.
pub open spec fn to_the_mouse(state: Ps2, byte: u8) -> Ps2 {
    state.written(4, 0xd4).written(0, byte)
}

/// The state after everything was read.
pub open spec fn read_out(state: Ps2) -> Ps2 {
    Ps2 { output: Seq::empty(), output_aux: Seq::empty(), ..state }
}

/// Every byte for the mouse but the echo 0xee is acknowledged by 0xfa, in a byte of the mouse. It
/// reports after 0xf4 and no more after 0xf5, 0xf6 or 0xff; it names itself 0 after 0xf2, and
/// reports its test after 0xff.
pub proof fn the_mouse_answers(state: Ps2, byte: u8)
    requires
        at_rest(state),
    ensures
        ({
            let after = to_the_mouse(state, byte);
            &&& after.next_is_aux()
            &&& after.output[0] == (if byte == 0xee {
                0xeeu8
            } else {
                0xfau8
            })
            &&& byte == 0xf2 ==> after.output == seq![0xfau8, 0u8]
            &&& byte == 0xff ==> after.output == seq![0xfau8, 0xaau8, 0u8]
            &&& byte == 0xeb ==> after.output.len() == 4
            &&& after.mouse_reporting_enabled == (if byte == 0xf4 {
                true
            } else if byte == 0xf5 || byte == 0xf6 || byte == 0xff {
                false
            } else {
                state.mouse_reporting_enabled
            })
            &&& after.keyboard_enabled == state.keyboard_enabled
        }),
{
    let waiting = state.written(4, 0xd4);
    lemma_answer_read(waiting.mouse_set(byte), waiting.mouse_reply(byte), true);
}

proof fn lemma_mouse_bits(byte: u8)
    by (bit_vector)
    ensures
        byte & 3 == byte % 4,
        0x20u8 | 0x10u8 == 48,
        0x20u8 | 0u8 == 32,
        0u8 | 0x10u8 == 16,
        0u8 | 0u8 == 0,
{
}

/// The resolution that 0xe8 sets, two bits, and the rate that 0xf3 sets are what 0xe9 reports,
/// behind a status byte with the reporting in bit 5 and the scaling in bit 4; 0xe7 switches the
/// scaling on, 0xe6 off.
pub proof fn the_mouse_keeps_its_settings(state: Ps2, resolution: u8, rate: u8, scaling: bool)
    requires
        at_rest(state),
    ensures
        ({
            let first = read_out(to_the_mouse(to_the_mouse(state, 0xe8), resolution));
            let second = read_out(to_the_mouse(to_the_mouse(first, 0xf3), rate));
            let third = read_out(
                to_the_mouse(
                    second,
                    if scaling {
                        0xe7
                    } else {
                        0xe6
                    },
                ),
            );
            let asked = to_the_mouse(third, 0xe9);
            let status = (if state.mouse_reporting_enabled {
                32int
            } else {
                0
            }) + (if scaling {
                16int
            } else {
                0
            });
            &&& asked.output.len() == 4 && asked.output[0] == 0xfa
            &&& asked.output[1] == status
            &&& asked.output[2] == resolution % 4
            &&& asked.output[3] == rate
        }),
{
    let set = to_the_mouse(state, 0xe8);
    let first = read_out(to_the_mouse(set, resolution));
    assert(set.pending_mouse_command == Some(0xe8u8));
    let set2 = to_the_mouse(first, 0xf3);
    let second = read_out(to_the_mouse(set2, rate));
    assert(set2.pending_mouse_command == Some(0xf3u8));
    let third = read_out(
        to_the_mouse(
            second,
            if scaling {
                0xe7
            } else {
                0xe6
            },
        ),
    );
    assert(at_rest(third));
    lemma_mouse_bits(resolution);
    let waiting = third.written(4, 0xd4);
    lemma_answer_read(waiting.mouse_set(0xe9), waiting.mouse_reply(0xe9), true);
}

/// Every byte for the keyboard but the echo 0xee is acknowledged by 0xfa. It sends keys after 0xf4
/// and 0xff, and no more after 0xf5 and 0xf6; it names itself after 0xf2, and reports its test
/// after 0xff.
pub proof fn the_keyboard_answers(state: Ps2, byte: u8)
    requires
        at_rest(state),
    ensures
        ({
            let after = state.written(0, byte);
            &&& !after.next_is_aux()
            &&& after.output[0] == (if byte == 0xee {
                0xeeu8
            } else {
                0xfau8
            })
            &&& byte == 0xf2 ==> after.output == seq![0xfau8, 0xabu8, 0x83u8]
            &&& byte == 0xff ==> after.output == seq![0xfau8, 0xaau8]
            &&& after.keyboard_enabled == (if byte == 0xf4 || byte == 0xff {
                true
            } else if byte == 0xf5 || byte == 0xf6 {
                false
            } else {
                state.keyboard_enabled
            })
            &&& after.mouse_enabled == state.mouse_enabled
        }),
{
    lemma_answer_read(state.keyboard_set(byte), state.keyboard_reply(byte), false);
}

/// The byte after 0xf0 selects a set of scan codes, 1, 2 or 3, and zero asks for the present one.
/// The byte after 0xed or 0xf3 is only acknowledged.
pub proof fn the_keyboard_keeps_its_set(state: Ps2, set: u8, parameter: u8)
    requires
        at_rest(state),
        1 <= set <= 3,
    ensures
        ({
            let selected = read_out(state.written(0, 0xf0).written(0, set));
            let asked = read_out(selected.written(0, 0xf0)).written(0, 0);
            let leds = read_out(state.written(0, 0xed)).written(0, parameter);
            let rate = read_out(state.written(0, 0xf3)).written(0, parameter);
            &&& selected.keyboard_scancode_set == set
            &&& asked.output == seq![0xfau8, set]
            &&& asked.pending_keyboard_command is None
            &&& leds.output == seq![0xfau8] && leds.keyboard_scancode_set
                == state.keyboard_scancode_set
            &&& rate.output == seq![0xfau8] && rate.keyboard_scancode_set
                == state.keyboard_scancode_set
        }),
{
    let waiting = state.written(0, 0xf0);
    assert(waiting.pending_keyboard_command == Some(0xf0u8));
    let selected = read_out(waiting.written(0, set));
    let again = read_out(selected.written(0, 0xf0));
    assert(again.pending_keyboard_command == Some(0xf0u8));
    lemma_answer_read(again.keyboard_set(0), again.keyboard_reply(0), false);
    let leds = read_out(state.written(0, 0xed));
    let rate = read_out(state.written(0, 0xf3));
    lemma_answer_read(leds.keyboard_set(parameter), leds.keyboard_reply(parameter), false);
    lemma_answer_read(rate.keyboard_set(parameter), rate.keyboard_reply(parameter), false);
}

/// The guest is reset by 0xfe at the command port, and by nothing else.
pub proof fn only_one_command_resets(state: Ps2, offset: u64, byte: u8)
    requires
        !state.reset_requested,
    ensures
        state.written(offset, byte).reset_requested == (offset == 4 && byte == 0xfe),
{
}

} // verus!
