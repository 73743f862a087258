//! What the messages of the remote framebuffer protocol mean.
use vstd::prelude::*;

use crate::vnc::{ClientState, PixelFormat, VncError, VncInputEvent};

verus! {

/// A key message tells whether a key is down, in byte 1, and its keysym, in the bytes 4 to 7.
pub proof fn a_key_message_is_one_key(state: ClientState, message: Seq<u8>)
    requires
        message.len() == 8,
        message[0] == 4,
    ensures
        ({
            let (after, events, outcome) = crate::vnc::after_message(state, message);
            &&& crate::vnc::message_size(message) == Ok::<Option<nat>, VncError>(Some(8))
            &&& after == state
            &&& outcome is Ok
            &&& events.len() == 1
            &&& events[0] matches VncInputEvent::Keyboard { key, down } && key
                == crate::bytes::big_number_at(message, 4, 4) && down == (message[1] != 0)
        }),
{
    crate::bytes::be32_is_a_number(message, 4);
}

/// A pointer message ends with the position, whose coordinates stand in the bytes 2 and 3 and in
/// the bytes 4 and 5. The buttons that changed come before it, and the state of all of them is
/// kept.
pub proof fn a_pointer_message_ends_with_the_position(state: ClientState, message: Seq<u8>)
    requires
        message.len() == 6,
        message[0] == 5,
    ensures
        ({
            let (after, events, outcome) = crate::vnc::after_message(state, message);
            &&& crate::vnc::message_size(message) == Ok::<Option<nat>, VncError>(Some(6))
            &&& after == (ClientState { pointer_button_mask: message[1], ..state })
            &&& outcome is Ok
            &&& events.len() > 0
            &&& events.last() matches VncInputEvent::PointerPosition { x, y } && x
                == crate::bytes::big_number_at(message, 2, 2) && y == crate::bytes::big_number_at(
                message,
                4,
                2,
            )
            &&& events.drop_last() == crate::vnc::button_events(
                state.pointer_button_mask ^ message[1],
                message[1],
                5,
            )
        }),
{
    crate::bytes::be16_is_a_number(message, 2);
    crate::bytes::be16_is_a_number(message, 4);
    let events = crate::vnc::after_message(state, message).1;
    assert(events.drop_last() =~= crate::vnc::button_events(
        state.pointer_button_mask ^ message[1],
        message[1],
        5,
    ));
}

/// The numbers of a pixel format stand in the sixteen bytes from byte 4 of its message on. A
/// format that is accepted is used from then on, and what is refused changes nothing.
pub proof fn a_format_message_names_the_format(state: ClientState, message: Seq<u8>)
    requires
        message.len() == 20,
        message[0] == 0,
    ensures
        ({
            let (after, events, outcome) = crate::vnc::after_message(state, message);
            let format = after.pixel_format;
            &&& crate::vnc::message_size(message) == Ok::<Option<nat>, VncError>(Some(20))
            &&& events.len() == 0
            &&& outcome is Err ==> after == state
            &&& outcome is Ok ==> {
                &&& message[7] != 0
                &&& format.valid()
                &&& format.bits_per_pixel == message[4]
                &&& format.depth == message[5]
                &&& format.big_endian == (message[6] != 0)
                &&& format.red_max == crate::bytes::big_number_at(message, 8, 2)
                &&& format.green_max == crate::bytes::big_number_at(message, 10, 2)
                &&& format.blue_max == crate::bytes::big_number_at(message, 12, 2)
                &&& format.red_shift == message[14]
                &&& format.green_shift == message[15]
                &&& format.blue_shift == message[16]
                &&& after == (ClientState { pixel_format: format, ..state })
            }
            &&& message[7] != 0 && PixelFormat::encoded_in(message).valid() ==> outcome is Ok
        }),
{
    crate::bytes::be16_is_a_number(message, 8);
    crate::bytes::be16_is_a_number(message, 10);
    crate::bytes::be16_is_a_number(message, 12);
}

/// A request for an update is taken, and its byte 1 tells whether only a change is asked for.
pub proof fn a_request_is_remembered(state: ClientState, message: Seq<u8>)
    requires
        message.len() == 10,
        message[0] == 3,
    ensures
        ({
            let (after, events, outcome) = crate::vnc::after_message(state, message);
            &&& crate::vnc::message_size(message) == Ok::<Option<nat>, VncError>(Some(10))
            &&& events.len() == 0 && outcome is Ok
            &&& after.framebuffer_request matches Some(request) && request.incremental == (
            message[1] != 0)
            &&& after.pixel_format == state.pixel_format
        }),
{
}

/// Messages with items have as many bytes as their headers say: six for each color, four for each
/// encoding, one for each character of a text, and six for each item of a message of kind 9.
pub proof fn messages_have_the_size_that_they_name(input: Seq<u8>)
    requires
        input.len() >= 8,
    ensures
        input[0] == 2 && 4 + 4 * crate::bytes::big_number_at(input, 2, 2) <= 16777216
            ==> crate::vnc::message_size(input) == Ok::<Option<nat>, VncError>(
            Some((4 + 4 * crate::bytes::big_number_at(input, 2, 2)) as nat),
        ),
        input[0] == 1 && 6 + 6 * crate::bytes::big_number_at(input, 4, 2) <= 16777216
            ==> crate::vnc::message_size(input) == Ok::<Option<nat>, VncError>(
            Some((6 + 6 * crate::bytes::big_number_at(input, 4, 2)) as nat),
        ),
        input[0] == 9 && 5 + 6 * crate::bytes::big_number_at(input, 3, 2) <= 16777216
            ==> crate::vnc::message_size(input) == Ok::<Option<nat>, VncError>(
            Some((5 + 6 * crate::bytes::big_number_at(input, 3, 2)) as nat),
        ),
        input[0] == 6 && 8 + crate::bytes::big_number_at(input, 4, 4) <= 16777216
            ==> crate::vnc::message_size(input) == Ok::<Option<nat>, VncError>(
            Some((8 + crate::bytes::big_number_at(input, 4, 4)) as nat),
        ),
{
    crate::bytes::be16_is_a_number(input, 2);
    crate::bytes::be16_is_a_number(input, 3);
    crate::bytes::be16_is_a_number(input, 4);
    crate::bytes::be32_is_a_number(input, 4);
}

/// The format that 16 bytes describe, as a client reads it.
pub open spec fn format_shown(bytes: Seq<u8>, format: PixelFormat) -> bool {
    &&& bytes.len() == 16
    &&& bytes[0] == format.bits_per_pixel
    &&& bytes[1] == format.depth
    &&& (bytes[2] != 0) == format.big_endian
    &&& bytes[3] != 0
    &&& crate::bytes::big_number_at(bytes, 4, 2) == format.red_max
    &&& crate::bytes::big_number_at(bytes, 6, 2) == format.green_max
    &&& crate::bytes::big_number_at(bytes, 8, 2) == format.blue_max
    &&& bytes[10] == format.red_shift
    &&& bytes[11] == format.green_shift
    &&& bytes[12] == format.blue_shift
}

/// A client learns the size of the desktop, the format that it gets if it selects none, and the
/// name of the desktop.
pub proof fn a_client_learns_the_desktop(width: u32, height: u32)
    requires
        width <= 0xffff,
        height <= 0xffff,
    ensures
        ({
            let message = crate::vnc::server_init_message(width, height);
            &&& crate::bytes::big_number_at(message, 0, 2) == width
            &&& crate::bytes::big_number_at(message, 2, 2) == height
            &&& format_shown(message.subrange(4, 20), ClientState::initial().pixel_format)
            &&& crate::bytes::big_number_at(message, 20, 4) == message.len() - 24
        }),
{
    let message = crate::vnc::server_init_message(width, height);
    let format = message.subrange(4, 20);
    crate::bytes::be_bytes_hold_the_value(width as u16, 16);
    crate::bytes::be_bytes_hold_the_value(height as u16, 16);
    assert(message.subrange(0, 2) =~= crate::bytes::be16_bytes(width as u16));
    assert(message.subrange(2, 4) =~= crate::bytes::be16_bytes(height as u16));
    assert(message.subrange(20, 24) =~= crate::bytes::be32_bytes(16));
    crate::bytes::be16_is_a_number(format, 4);
    crate::bytes::be16_is_a_number(format, 6);
    crate::bytes::be16_is_a_number(format, 8);
}

/// "003.00" and a digit.
pub open spec fn numbered(digit: u8) -> Seq<u8> {
    seq![0x30u8, 0x30, 0x33, 0x2e, 0x30, 0x30, digit]
}

proof fn lemma_version(version: Seq<u8>, digit: u8)
    requires
        version.len() == 12,
        version.subrange(4, 11) == numbered(digit),
        version[0] == 0x52 && version[1] == 0x46 && version[2] == 0x42 && version[3] == 0x20,
        version[11] == 0x0a,
    ensures
        crate::vnc::has_part(version, numbered(digit)),
        forall|other: u8|
            other != digit ==> !#[trigger] crate::vnc::has_part(version, numbered(other)),
{
    let number = numbered(digit);
    assert(version.subrange(4, 4int + number.len()) == number);
    assert forall|other: u8| other != digit implies !#[trigger] crate::vnc::has_part(
        version,
        numbered(other),
    ) by {
        let part = numbered(other);
        if crate::vnc::has_part(version, part) {
            let i = choose|i: int|
                0 <= i <= version.len() - part.len() && #[trigger] version.subrange(
                    i,
                    i + part.len(),
                ) == part;
            let (found, named) = (version.subrange(i, i + 7), version.subrange(4, 11));
            assert(found[3] == version[i + 3] && found[0] == version[i] && found[6] == version[i + 6]);
            assert(named[3] == version[7] && named[0] == version[4] && named[1] == version[5]
                && named[2] == version[6] && named[4] == version[8] && named[5] == version[9]
                && named[6] == version[10]);
        }
    }
}

/// A client names the version that it speaks in twelve bytes: "RFB 003.00", the last digit, and a
/// line feed. With 8 the newer version is spoken, with 3 the older one, and with another digit
/// none. The server itself announces the newer one.
pub proof fn a_client_names_its_version(version: Seq<u8>, digit: u8)
    requires
        version.len() == 12,
        version.subrange(4, 11) == numbered(digit),
        version[0] == 0x52 && version[1] == 0x46 && version[2] == 0x42 && version[3] == 0x20,
        version[11] == 0x0a,
    ensures
        ({
            let agreed = crate::vnc::agreed_version(version);
            &&& digit == 0x38 ==> (agreed matches Ok(newer) && newer) && version
                == crate::vnc::greeting()
            &&& digit == 0x33 ==> (agreed matches Ok(newer) && !newer)
            &&& digit != 0x38 && digit != 0x33 ==> agreed is Err
        }),
{
    lemma_version(version, digit);
    assert(crate::vnc::version_3_8() =~= numbered(0x38));
    assert(crate::vnc::version_3_3() =~= numbered(0x33));
    if digit == 0x38 {
        let named = version.subrange(4, 11);
        assert(named[0] == version[4] && named[1] == version[5] && named[2] == version[6]
            && named[3] == version[7] && named[4] == version[8] && named[5] == version[9]
            && named[6] == version[10]);
        assert(version =~= crate::vnc::greeting());
    }
}

/// A client of the newer version is offered one security type, the one without a password, and
/// goes on exactly where it selects it. The reply starts with zero where it does, and else with
/// one.
pub proof fn one_security_type_is_accepted(selected: u8)
    ensures
        ({
            let offer = crate::vnc::offered_security(true);
            let (reply, verdict) = crate::vnc::security_verdict(true, selected);
            &&& offer[0] == offer.len() - 1
            &&& verdict is Ok <==> selected == offer[1]
            &&& crate::bytes::big_number_at(reply, 0, 4) == (if selected == 1 {
                0int
            } else {
                1
            })
        }),
{
    let reply = crate::vnc::security_verdict(true, selected).0;
    crate::bytes::be32_is_a_number(reply, 0);
}

proof fn lemma_button_bits(old_mask: u8, mask: u8, button: u8)
    by (bit_vector)
    requires
        button < 8,
    ensures
        ((old_mask ^ mask) & (1u8 << button) != 0) == ((old_mask >> button) % 2 != (mask >> button)
            % 2),
        (mask & (1u8 << button) != 0) == ((mask >> button) % 2 == 1),
{
}

/// A pointer message reports each of the five buttons that it shows otherwise than the last one
/// did, with its new state, and no other button: button `b` is bit `b` of the second byte.
pub proof fn a_pointer_message_reports_the_changed_buttons(
    state: ClientState,
    message: Seq<u8>,
    button: u8,
    i: int,
)
    requires
        message.len() == 6,
        message[0] == 5,
        button < 5,
    ensures
        ({
            let events = crate::vnc::after_message(state, message).1;
            let before = (state.pointer_button_mask >> button) % 2;
            let now = (message[1] >> button) % 2;
            let change = VncInputEvent::MouseButton { button, down: now == 1 };
            let other = VncInputEvent::MouseButton { button, down: now != 1 };
            &&& events.contains(change) <==> before != now
            &&& !events.contains(other)
            &&& 0 <= i < events.len() - 1 ==> (events[i] matches VncInputEvent::MouseButton {
                button: b,
                ..
            } && b < 5)
        }),
{
    let mask = message[1];
    let changed = state.pointer_button_mask ^ mask;
    let events = crate::vnc::after_message(state, message).1;
    let reported = crate::vnc::button_events(changed, mask, 5);
    let now = (mask >> button) % 2;
    let change = VncInputEvent::MouseButton { button, down: now == 1 };
    let other = VncInputEvent::MouseButton { button, down: now != 1 };
    lemma_button_bits(state.pointer_button_mask, mask, button);
    crate::vnc::only_changed_buttons_are_reported(changed, mask, 5);
    assert(crate::vnc::button_change(button, mask) == change);
    if changed & (1u8 << button) != 0 {
        assert(reported.contains(change));
        let k = choose|k: int| 0 <= k < reported.len() && reported[k] == change;
        assert(events[k] == change);
    }
    if events.contains(change) {
        let k = choose|k: int| 0 <= k < events.len() && events[k] == change;
        assert(reported[k] == change);
    }
    if events.contains(other) {
        let k = choose|k: int| 0 <= k < events.len() && events[k] == other;
        assert(reported[k] == other);
    }
    if 0 <= i < events.len() - 1 {
        assert(reported[i] == events[i]);
    }
}

/// An extended key message is thirteen bytes long, and is one key as well: its symbol stands in the
/// bytes 4 to 7, and whether it is pressed in the bytes 2 and 3.
pub proof fn an_extended_key_message_is_one_key(state: ClientState, message: Seq<u8>)
    requires
        message.len() == 13,
        message[0] == 0xff,
        message[1] == 0,
    ensures
        ({
            let (after, events, outcome) = crate::vnc::after_message(state, message);
            &&& crate::vnc::message_size(message) == Ok::<Option<nat>, VncError>(Some(13))
            &&& after == state && outcome is Ok
            &&& events.len() == 1
            &&& events[0] matches VncInputEvent::Keyboard { key, down } && key
                == crate::bytes::big_number_at(message, 4, 4) && down
                == (crate::bytes::big_number_at(message, 2, 2) != 0)
        }),
{
    crate::bytes::be32_is_a_number(message, 4);
    crate::bytes::be16_is_a_number(message, 2);
}

/// What arrives is kept behind what has arrived before, as long as no more than 16 MiB wait. A
/// read without bytes ends the connection, and so does one that fails; one that would block ends
/// only the reading.
pub proof fn what_arrives_is_kept_in_order(input: Seq<u8>, bytes: Seq<u8>)
    requires
        input.len() <= 16777216,
    ensures
        ({
            let (kept, more) = crate::vnc::absorbed(input, crate::vnc::Received::Data(bytes));
            let (same, blocked) = crate::vnc::absorbed(input, crate::vnc::Received::WouldBlock);
            let (still, again) = crate::vnc::absorbed(input, crate::vnc::Received::Interrupted);
            &&& more is Ok <==> bytes.len() > 0 && input.len() + bytes.len() <= 16777216
            &&& more is Ok ==> kept.len() == input.len() + bytes.len() && kept.take(
                input.len() as int,
            ) == input && kept.skip(input.len() as int) == bytes && more->Ok_0
            &&& same == input && (blocked matches Ok(goes_on) && !goes_on)
            &&& still == input && (again matches Ok(goes_on) && goes_on)
            &&& crate::vnc::absorbed(input, crate::vnc::Received::Failed).1 is Err
        }),
{
    assert((input + bytes).take(input.len() as int) =~= input);
    assert((input + bytes).skip(input.len() as int) =~= bytes);
}

} // verus!
