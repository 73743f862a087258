//! From the input events of a remote client to those of a HID device.
use vstd::prelude::*;

use crate::input_protocol::InputEvent;
use crate::vnc::VncInputEvent;

verus! {

/// `v` limited to the values of an `i16`.
pub open spec fn clamped(v: int) -> int {
    if v > i16::MAX {
        i16::MAX as int
    } else if v < i16::MIN {
        i16::MIN as int
    } else {
        v
    }
}

pub open spec fn magnitude(v: int) -> nat {
    if v < 0 {
        (-v) as nat
    } else {
        v as nat
    }
}

/// The events that carry a motion, each with as much of it as one event can hold.
pub open spec fn split(dx: int, dy: int, buttons: u8) -> Seq<InputEvent>
    decreases magnitude(dx) + magnitude(dy),
{
    if dx == 0 && dy == 0 {
        Seq::empty()
    } else {
        seq![
            InputEvent::Mouse {
                dx: clamped(dx) as i16,
                dy: clamped(dy) as i16,
                wheel: 0,
                buttons,
            },
        ] + split(dx - clamped(dx), dy - clamped(dy), buttons)
    }
}

/// The bit of a button in a HID report: the protocol counts left, middle, right, the report
/// left, right, middle.
pub open spec fn button_bit(button: u8) -> u8 {
    if button == 0 {
        1
    } else if button == 1 {
        4
    } else {
        2
    }
}

/// The pointer position and the buttons that the client reported last.
#[derive(Clone, Copy, Debug, PartialEq, Eq)]
pub struct VncInputTranslator {
    pub pointer_position: Option<(u32, u32)>,
    pub buttons: u8,
}

pub open spec fn motion(dx: i16, dy: i16, wheel: i16, buttons: u8) -> InputEvent {
    InputEvent::Mouse { dx, dy, wheel, buttons }
}

impl VncInputTranslator {
    pub open spec fn initial() -> VncInputTranslator {
        VncInputTranslator { pointer_position: None, buttons: 0 }
    }

    /// The translator after an event, and the events that it stands for.
    pub open spec fn translated(self, event: VncInputEvent) -> (
        VncInputTranslator,
        Seq<InputEvent>,
    ) {
        match event {
            VncInputEvent::Keyboard { key, down } => match usage_of(key) {
                Some(usage) => (self, seq![InputEvent::Key { usage, pressed: down }]),
                None => (self, Seq::empty()),
            },
            VncInputEvent::MouseButton { button, down } => if button < 3 {
                let buttons = if down {
                    self.buttons | button_bit(button)
                } else {
                    self.buttons & !button_bit(button)
                };
                (VncInputTranslator { buttons, ..self }, seq![motion(0, 0, 0, buttons)])
            } else if button == 3 && down {
                (self, seq![motion(0, 0, 1, self.buttons)])
            } else if button == 4 && down {
                (self, seq![motion(0, 0, (-1) as i16, self.buttons)])
            } else {
                (self, Seq::empty())
            },
            VncInputEvent::PointerMove { dx, dy } => (self, seq![motion(dx, dy, 0, self.buttons)]),
            VncInputEvent::PointerPosition { x, y } => (
                VncInputTranslator { pointer_position: Some((x, y)), ..self },
                match self.pointer_position {
                    None => Seq::empty(),
                    Some((px, py)) => split(x - px, y - py, self.buttons),
                },
            ),
            VncInputEvent::ReleaseAll => (
                VncInputTranslator::initial(),
                seq![InputEvent::ReleaseAll],
            ),
        }
    }

    pub fn reset(&mut self)
        ensures
            *final(self) == VncInputTranslator::initial(),
    {
        self.pointer_position = None;
        self.buttons = 0;
    }

    pub fn translate(&mut self, event: &VncInputEvent) -> (r: Vec<InputEvent>)
        ensures
            *final(self) == old(self).translated(*event).0,
            r@ == old(self).translated(*event).1,
    {
        match *event {
            VncInputEvent::Keyboard { key, down } => {
                match keysym_to_usage(key) {
                    Some(usage) => one(InputEvent::Key { usage, pressed: down }),
                    None => none(),
                }
            },
            VncInputEvent::MouseButton { button, down } => {
                if button < 3 {
                    let mask: u8 = if button == 0 {
                        1
                    } else if button == 1 {
                        4
                    } else {
                        2
                    };
                    if down {
                        self.buttons = self.buttons | mask;
                    } else {
                        self.buttons = self.buttons & !mask;
                    }
                    one(mouse_event(0, 0, 0, self.buttons))
                } else if button == 3 && down {
                    one(mouse_event(0, 0, 1, self.buttons))
                } else if button == 4 && down {
                    one(mouse_event(0, 0, -1, self.buttons))
                } else {
                    none()
                }
            },
            VncInputEvent::PointerMove { dx, dy } => one(mouse_event(dx, dy, 0, self.buttons)),
            VncInputEvent::PointerPosition { x, y } => {
                let previous = self.pointer_position;
                self.pointer_position = Some((x, y));
                match previous {
                    None => none(),
                    Some((previous_x, previous_y)) => split_motion(
                        x as i64 - previous_x as i64,
                        y as i64 - previous_y as i64,
                        self.buttons,
                    ),
                }
            },
            VncInputEvent::ReleaseAll => {
                self.reset();
                one(InputEvent::ReleaseAll)
            },
        }
    }
}

impl Default for VncInputTranslator {
    fn default() -> (r: Self)
        ensures
            r == VncInputTranslator::initial(),
    {
        VncInputTranslator { pointer_position: None, buttons: 0 }
    }
}

fn one(event: InputEvent) -> (r: Vec<InputEvent>)
    ensures
        r@ == seq![event],
{
    let mut events: Vec<InputEvent> = Vec::new();
    events.push(event);
    assert(events@ =~= seq![event]);
    events
}

fn none() -> (r: Vec<InputEvent>)
    ensures
        r@ == Seq::<InputEvent>::empty(),
{
    Vec::new()
}

pub fn mouse_event(dx: i16, dy: i16, wheel: i16, buttons: u8) -> (r: InputEvent)
    ensures
        r == motion(dx, dy, wheel, buttons),
{
    InputEvent::Mouse { dx, dy, wheel, buttons }
}

fn clamp_motion(v: i64) -> (r: i16)
    ensures
        r == clamped(v as int),
{
    if v > 32767 {
        32767
    } else if v < -32768 {
        -32768
    } else {
        v as i16
    }
}

/// Splits a motion into events.
pub fn split_motion(dx: i64, dy: i64, buttons: u8) -> (r: Vec<InputEvent>)
    ensures
        r@ == split(dx as int, dy as int, buttons),
{
    let mut events: Vec<InputEvent> = Vec::new();
    let mut dx_left: i64 = dx;
    let mut dy_left: i64 = dy;
    assert(events@ + split(dx as int, dy as int, buttons) =~= split(
        dx as int,
        dy as int,
        buttons,
    ));
    while dx_left != 0 || dy_left != 0
        invariant
            events@ + split(dx_left as int, dy_left as int, buttons) == split(
                dx as int,
                dy as int,
                buttons,
            ),
        decreases magnitude(dx_left as int) + magnitude(dy_left as int),
    {
        let part_x: i16 = clamp_motion(dx_left);
        let part_y: i16 = clamp_motion(dy_left);
        let ghost before = events@;
        events.push(mouse_event(part_x, part_y, 0, buttons));
        let ghost rest = split(dx_left - part_x, dy_left - part_y, buttons);
        assert(before + (seq![motion(part_x, part_y, 0, buttons)] + rest) =~= events@ + rest);
        dx_left = dx_left - part_x as i64;
        dy_left = dy_left - part_y as i64;
    }
    assert(events@ + Seq::<InputEvent>::empty() =~= events@);
    events
}

/// The sum of the motion of some events.
pub open spec fn total(events: Seq<InputEvent>) -> (int, int)
    decreases events.len(),
{
    if events.len() == 0 {
        (0, 0)
    } else {
        let (x, y) = total(events.skip(1));
        match events[0] {
            InputEvent::Mouse { dx, dy, .. } => (x + dx, y + dy),
            _ => (x, y),
        }
    }
}

/// Splitting a motion loses none of it.
pub proof fn splitting_loses_no_motion(dx: int, dy: int, buttons: u8)
    ensures
        total(split(dx, dy, buttons)) == (dx, dy),
    decreases magnitude(dx) + magnitude(dy),
{
    if dx != 0 || dy != 0 {
        let rest = split(dx - clamped(dx), dy - clamped(dy), buttons);
        splitting_loses_no_motion(dx - clamped(dx), dy - clamped(dy), buttons);
        assert(split(dx, dy, buttons).skip(1) =~= rest);
    }
}

/// The translator after some events, and the events that they stand for.
pub open spec fn all_translated(translator: VncInputTranslator, events: Seq<VncInputEvent>) -> (
    VncInputTranslator,
    Seq<InputEvent>,
)
    decreases events.len(),
{
    if events.len() == 0 {
        (translator, Seq::empty())
    } else {
        let (before, sent) = all_translated(translator, events.drop_last());
        let (after, more) = before.translated(events.last());
        (after, sent + more)
    }
}

proof fn lemma_total_joined(first: Seq<InputEvent>, second: Seq<InputEvent>)
    ensures
        total(first + second) == (total(first).0 + total(second).0, total(first).1 + total(
            second,
        ).1),
    decreases first.len(),
{
    if first.len() == 0 {
        assert(first + second =~= second);
    } else {
        lemma_total_joined(first.skip(1), second);
        assert((first + second).skip(1) =~= first.skip(1) + second);
    }
}

proof fn lemma_motions_from(translator: VncInputTranslator, events: Seq<VncInputEvent>)
    requires
        translator.pointer_position is Some,
        forall|i: int|
            0 <= i < events.len() ==> !(#[trigger] events[i] is ReleaseAll) && !(
            events[i] is PointerMove),
    ensures
        ({
            let (after, sent) = all_translated(translator, events);
            let (x, y) = translator.pointer_position->0;
            &&& after.pointer_position matches Some((last_x, last_y)) && total(sent) == (
                last_x - x,
                last_y - y,
            )
        }),
    decreases events.len(),
{
    if events.len() > 0 {
        let (before, sent) = all_translated(translator, events.drop_last());
        let event = events.last();
        let (after, more) = before.translated(event);
        lemma_motions_from(translator, events.drop_last());
        lemma_total_joined(sent, more);
        assert(!(events[events.len() - 1] is ReleaseAll));
        match event {
            VncInputEvent::PointerPosition { x, y } => {
                let (before_x, before_y) = before.pointer_position->0;
                splitting_loses_no_motion(x - before_x, y - before_y, before.buttons);
            },
            _ => {
                reveal_with_fuel(total, 2);
            },
        }
    }
}

/// The motions of a client that reports positions add up to the way from its first position to
/// its last one, whatever keys and buttons it reports on the way.
pub proof fn motions_lead_from_the_first_position_to_the_last(
    buttons: u8,
    first: (u32, u32),
    events: Seq<VncInputEvent>,
)
    requires
        events.len() > 0,
        events[0] == (VncInputEvent::PointerPosition { x: first.0, y: first.1 }),
        forall|i: int|
            0 <= i < events.len() ==> !(#[trigger] events[i] is ReleaseAll) && !(
            events[i] is PointerMove),
    ensures
        ({
            let (after, sent) = all_translated(
                VncInputTranslator { pointer_position: None, buttons },
                events,
            );
            &&& after.pointer_position matches Some((x, y)) && total(sent) == (
                x - first.0,
                y - first.1,
            )
        }),
    decreases events.len(),
{
    let start = VncInputTranslator { pointer_position: None, buttons };
    let placed = VncInputTranslator { pointer_position: Some(first), buttons };
    let rest = events.skip(1);
    lemma_motions_from(placed, rest);
    lemma_first_translated(start, events);
    assert(start.translated(events[0]) == (placed, Seq::<InputEvent>::empty()));
    assert(Seq::<InputEvent>::empty() + all_translated(placed, rest).1 =~= all_translated(
        placed,
        rest,
    ).1);
}

proof fn lemma_first_translated(translator: VncInputTranslator, events: Seq<VncInputEvent>)
    requires
        events.len() > 0,
    ensures
        ({
            let (next, sent) = translator.translated(events[0]);
            let (after, more) = all_translated(next, events.skip(1));
            all_translated(translator, events) == (after, sent + more)
        }),
    decreases events.len(),
{
    let (next, sent) = translator.translated(events[0]);
    reveal_with_fuel(all_translated, 2);
    if events.len() == 1 {
        assert(events.drop_last() =~= Seq::<VncInputEvent>::empty());
        assert(events.skip(1) =~= Seq::<VncInputEvent>::empty());
        assert(Seq::<InputEvent>::empty() + sent =~= sent + Seq::<InputEvent>::empty());
    } else {
        lemma_first_translated(translator, events.drop_last());
        assert(events.drop_last().skip(1) =~= events.skip(1).drop_last());
        assert(events.drop_last()[0] == events[0]);
        assert(events.skip(1).last() == events.last());
        let (before, more) = all_translated(next, events.skip(1).drop_last());
        let last = before.translated(events.last()).1;
        assert((sent + more) + last =~= sent + (more + last));
    }
}

/// The first position of a client only sets the baseline, and so does the first after all
/// input was released.
pub proof fn a_first_position_moves_nothing(translator: VncInputTranslator, x: u32, y: u32)
    ensures
        VncInputTranslator::initial().translated(VncInputEvent::PointerPosition { x, y }).1
            == Seq::<InputEvent>::empty(),
        translator.translated(VncInputEvent::ReleaseAll).0 == VncInputTranslator::initial(),
{
}

/// Turning the wheel leaves no button pressed.
pub proof fn the_wheel_is_transient(translator: VncInputTranslator, button: u8, down: bool)
    requires
        button >= 3,
    ensures
        translator.translated(VncInputEvent::MouseButton { button, down }).0 == translator,
{
}

/// The HID usage of an X11 keysym.
pub open spec fn usage_of(keysym: u32) -> Option<u8> {
    if 0x61 <= keysym <= 0x7a {
        Some((0x04 + (keysym - 0x61)) as u8)
    } else if 0x41 <= keysym <= 0x5a {
        Some((0x04 + (keysym - 0x41)) as u8)
    } else if 0x31 <= keysym <= 0x39 {
        Some((0x1e + (keysym - 0x31)) as u8)
    } else if 0xffbe <= keysym <= 0xffc9 {
        Some((0x3a + (keysym - 0xffbe)) as u8)
    } else if 0xffb1 <= keysym <= 0xffb9 {
        Some((0x59 + (keysym - 0xffb1)) as u8)
    } else {
        single_usage(keysym)
    }
}

/// The usages of the keysyms outside the runs of letters, digits and function keys.
pub open spec fn single_usage(keysym: u32) -> Option<u8> {
    match keysym {
        0x21 => Some(0x1e),
        0x40 => Some(0x1f),
        0x23 => Some(0x20),
        0x24 => Some(0x21),
        0x25 => Some(0x22),
        0x5e => Some(0x23),
        0x26 => Some(0x24),
        0x2a => Some(0x25),
        0x28 => Some(0x26),
        0x30 | 0x29 => Some(0x27),
        0xff0d | 0x0d => Some(0x28),
        0xff1b | 0x1b => Some(0x29),
        0xff08 | 0x08 => Some(0x2a),
        0xff09 | 0x09 => Some(0x2b),
        0x20 => Some(0x2c),
        0x2d | 0x5f => Some(0x2d),
        0x3d | 0x2b => Some(0x2e),
        0x5b | 0x7b => Some(0x2f),
        0x5d | 0x7d => Some(0x30),
        0x5c | 0x7c => Some(0x31),
        0x3b | 0x3a => Some(0x33),
        0x27 | 0x22 => Some(0x34),
        0x60 | 0x7e => Some(0x35),
        0x2c | 0x3c => Some(0x36),
        0x2e | 0x3e => Some(0x37),
        0x2f | 0x3f => Some(0x38),
        0xffe5 | 0xffe6 => Some(0x39),
        0xff14 => Some(0x47),
        0xff13 => Some(0x48),
        0xff63 => Some(0x49),
        0xff50 => Some(0x4a),
        0xff55 => Some(0x4b),
        0xffff => Some(0x4c),
        0xff57 => Some(0x4d),
        0xff56 => Some(0x4e),
        0xff53 => Some(0x4f),
        0xff51 => Some(0x50),
        0xff54 => Some(0x51),
        0xff52 => Some(0x52),
        0xff7f => Some(0x53),
        0xffaf => Some(0x54),
        0xffaa => Some(0x55),
        0xffad => Some(0x56),
        0xffab => Some(0x57),
        0xff8d => Some(0x58),
        0xff9c => Some(0x59),
        0xff99 => Some(0x5a),
        0xff9b => Some(0x5b),
        0xff96 => Some(0x5c),
        0xff9d => Some(0x5d),
        0xff98 => Some(0x5e),
        0xff95 => Some(0x5f),
        0xff97 => Some(0x60),
        0xff9a => Some(0x61),
        0xffb0 | 0xff9e => Some(0x62),
        0xffae | 0xffac | 0xff9f => Some(0x63),
        0xffbd => Some(0x67),
        0xffe3 => Some(0xe0),
        0xffe1 => Some(0xe1),
        0xffe9 => Some(0xe2),
        0xffe7 | 0xffeb => Some(0xe3),
        0xffe4 => Some(0xe4),
        0xffe2 => Some(0xe5),
        0xffea | 0xfe03 | 0xff7e => Some(0xe6),
        0xffe8 | 0xffec => Some(0xe7),
        _ => None,
    }
}

pub fn keysym_to_usage(keysym: u32) -> (r: Option<u8>)
    ensures
        r == usage_of(keysym),
{
    if 0x61 <= keysym && keysym <= 0x7a {
        return Some(0x04 + (keysym - 0x61) as u8);
    }
    if 0x41 <= keysym && keysym <= 0x5a {
        return Some(0x04 + (keysym - 0x41) as u8);
    }
    if 0x31 <= keysym && keysym <= 0x39 {
        return Some(0x1e + (keysym - 0x31) as u8);
    }
    if 0xffbe <= keysym && keysym <= 0xffc9 {
        return Some(0x3a + (keysym - 0xffbe) as u8);
    }
    if 0xffb1 <= keysym && keysym <= 0xffb9 {
        return Some(0x59 + (keysym - 0xffb1) as u8);
    }
    match keysym {
        0x21 => Some(0x1e),
        0x40 => Some(0x1f),
        0x23 => Some(0x20),
        0x24 => Some(0x21),
        0x25 => Some(0x22),
        0x5e => Some(0x23),
        0x26 => Some(0x24),
        0x2a => Some(0x25),
        0x28 => Some(0x26),
        0x30 | 0x29 => Some(0x27),
        0xff0d | 0x0d => Some(0x28),
        0xff1b | 0x1b => Some(0x29),
        0xff08 | 0x08 => Some(0x2a),
        0xff09 | 0x09 => Some(0x2b),
        0x20 => Some(0x2c),
        0x2d | 0x5f => Some(0x2d),
        0x3d | 0x2b => Some(0x2e),
        0x5b | 0x7b => Some(0x2f),
        0x5d | 0x7d => Some(0x30),
        0x5c | 0x7c => Some(0x31),
        0x3b | 0x3a => Some(0x33),
        0x27 | 0x22 => Some(0x34),
        0x60 | 0x7e => Some(0x35),
        0x2c | 0x3c => Some(0x36),
        0x2e | 0x3e => Some(0x37),
        0x2f | 0x3f => Some(0x38),
        0xffe5 | 0xffe6 => Some(0x39),
        0xff14 => Some(0x47),
        0xff13 => Some(0x48),
        0xff63 => Some(0x49),
        0xff50 => Some(0x4a),
        0xff55 => Some(0x4b),
        0xffff => Some(0x4c),
        0xff57 => Some(0x4d),
        0xff56 => Some(0x4e),
        0xff53 => Some(0x4f),
        0xff51 => Some(0x50),
        0xff54 => Some(0x51),
        0xff52 => Some(0x52),
        0xff7f => Some(0x53),
        0xffaf => Some(0x54),
        0xffaa => Some(0x55),
        0xffad => Some(0x56),
        0xffab => Some(0x57),
        0xff8d => Some(0x58),
        0xff9c => Some(0x59),
        0xff99 => Some(0x5a),
        0xff9b => Some(0x5b),
        0xff96 => Some(0x5c),
        0xff9d => Some(0x5d),
        0xff98 => Some(0x5e),
        0xff95 => Some(0x5f),
        0xff97 => Some(0x60),
        0xff9a => Some(0x61),
        0xffb0 | 0xff9e => Some(0x62),
        0xffae | 0xffac | 0xff9f => Some(0x63),
        0xffbd => Some(0x67),
        0xffe3 => Some(0xe0),
        0xffe1 => Some(0xe1),
        0xffe9 => Some(0xe2),
        0xffe7 | 0xffeb => Some(0xe3),
        0xffe4 => Some(0xe4),
        0xffe2 => Some(0xe5),
        0xffea | 0xfe03 | 0xff7e => Some(0xe6),
        0xffe8 | 0xffec => Some(0xe7),
        _ => None,
    }
}

/// Every printable ASCII character has a key. A capital letter has the key of its small
/// letter, for the guest gets the shift key by itself.
pub proof fn printable_characters_have_keys(keysym: u32)
    ensures
        0x20 <= keysym <= 0x7e ==> usage_of(keysym) is Some,
        0x41 <= keysym <= 0x5a ==> usage_of(keysym) == usage_of((keysym + 0x20) as u32),
{
}

/// The digits, from one to zero.
pub open spec fn digits() -> Seq<u32> {
    seq![
        0x31u32, 0x32, 0x33, 0x34, 0x35, 0x36, 0x37, 0x38, 0x39, 0x30,
    ]
}

/// The signs on the keys of the digits.
pub open spec fn shifted_digits() -> Seq<u32> {
    seq![
        0x21u32, 0x40, 0x23, 0x24, 0x25, 0x5e, 0x26, 0x2a, 0x28, 0x29,
    ]
}

/// Return, escape, backspace, tab and space, then the signs of the main block.
pub open spec fn after_digits() -> Seq<u32> {
    seq![
        0xff0du32, 0xff1b, 0xff08, 0xff09, 0x20, 0x2d, 0x3d, 0x5b, 0x5d, 0x5c,
    ]
}

/// The control characters and the shifted signs of the same keys.
pub open spec fn shifted_after_digits() -> Seq<u32> {
    seq![
        0xdu32, 0x1b, 0x8, 0x9, 0x20, 0x5f, 0x2b, 0x7b, 0x7d, 0x7c,
    ]
}

/// The other signs of the main block, and the lock of the capitals.
pub open spec fn signs() -> Seq<u32> {
    seq![
        0x3bu32, 0x27, 0x60, 0x2c, 0x2e, 0x2f, 0xffe5,
    ]
}

/// The same keys with shift.
pub open spec fn shifted_signs() -> Seq<u32> {
    seq![
        0x3au32, 0x22, 0x7e, 0x3c, 0x3e, 0x3f, 0xffe6,
    ]
}

/// The function keys.
pub open spec fn function_keys() -> Seq<u32> {
    seq![
        0xffbeu32, 0xffbf, 0xffc0, 0xffc1, 0xffc2, 0xffc3, 0xffc4, 0xffc5, 0xffc6, 0xffc7,
        0xffc8, 0xffc9,
    ]
}

/// Scroll lock, pause, insert, home, page up, delete, end, page down, the arrows to the right, to
/// the left, down and up, and the lock of the numbers.
pub open spec fn editing_keys() -> Seq<u32> {
    seq![
        0xff14u32, 0xff13, 0xff63, 0xff50, 0xff55, 0xffff, 0xff57, 0xff56, 0xff53, 0xff51,
        0xff54, 0xff52, 0xff7f,
    ]
}

/// The keypad: divide, multiply, subtract, add, enter.
pub open spec fn keypad_signs() -> Seq<u32> {
    seq![
        0xffafu32, 0xffaa, 0xffad, 0xffab, 0xff8d,
    ]
}

/// The keypad: the digits from one to zero, and the point.
pub open spec fn keypad_digits() -> Seq<u32> {
    seq![
        0xffb1u32, 0xffb2, 0xffb3, 0xffb4, 0xffb5, 0xffb6, 0xffb7, 0xffb8, 0xffb9, 0xffb0,
        0xffae,
    ]
}

/// The keypad without the lock of the numbers: end, down, page down, left, begin, right, home,
/// up, page up, insert, delete.
pub open spec fn keypad_moves() -> Seq<u32> {
    seq![
        0xff9cu32, 0xff99, 0xff9b, 0xff96, 0xff9d, 0xff98, 0xff95, 0xff97, 0xff9a, 0xff9e,
        0xff9f,
    ]
}

/// The modifiers: control, shift, alternate and the system key, left and then right.
pub open spec fn modifier_keys() -> Seq<u32> {
    seq![
        0xffe3u32, 0xffe1, 0xffe9, 0xffeb, 0xffe4, 0xffe2, 0xffea, 0xffec,
    ]
}

/// The usages of a HID keyboard count its keys in their order: the letters, the digits, and the
/// other keys block by block. A sign with shift is on the key of the one without.
pub proof fn usages_count_the_keys(i: int)
    ensures
        0 <= i < 26 ==> usage_of((0x61 + i) as u32) == Some((0x04 + i) as u8),
        0 <= i < 26 ==> usage_of((0x41 + i) as u32) == Some((0x04 + i) as u8),
        0 <= i < 10 ==> usage_of(digits()[i]) == Some((0x1e + i) as u8),
        0 <= i < 10 ==> usage_of(shifted_digits()[i]) == Some((0x1e + i) as u8),
        0 <= i < 10 ==> usage_of(after_digits()[i]) == Some((0x28 + i) as u8),
        0 <= i < 10 ==> usage_of(shifted_after_digits()[i]) == Some((0x28 + i) as u8),
        0 <= i < 7 ==> usage_of(signs()[i]) == Some((0x33 + i) as u8),
        0 <= i < 7 ==> usage_of(shifted_signs()[i]) == Some((0x33 + i) as u8),
        0 <= i < 12 ==> usage_of(function_keys()[i]) == Some((0x3a + i) as u8),
        0 <= i < 13 ==> usage_of(editing_keys()[i]) == Some((0x47 + i) as u8),
        0 <= i < 5 ==> usage_of(keypad_signs()[i]) == Some((0x54 + i) as u8),
        0 <= i < 11 ==> usage_of(keypad_digits()[i]) == Some((0x59 + i) as u8),
        0 <= i < 11 ==> usage_of(keypad_moves()[i]) == Some((0x59 + i) as u8),
        0 <= i < 8 ==> usage_of(modifier_keys()[i]) == Some((0xe0 + i) as u8),
{
    if i == 0 {
    } else if i == 1 {
    } else if i == 2 {
    } else if i == 3 {
    } else if i == 4 {
    } else if i == 5 {
    } else if i == 6 {
    } else if i == 7 {
    } else if i == 8 {
    } else if i == 9 {
    } else if i == 10 {
    } else if i == 11 {
    } else if i == 12 {
    }
}

/// A button of the pointer has a bit of its own in the events: the left one the lowest, the right
/// one the next, and the middle one the third. It is set while the button is pressed, and no other
/// button changes it. Nothing moves.
pub proof fn a_button_has_its_own_bit(
    translator: VncInputTranslator,
    button: u8,
    down: bool,
    other: u8,
)
    requires
        button < 3,
        other < 8,
    ensures
        ({
            let (after, events) = translator.translated(VncInputEvent::MouseButton { button, down });
            let own: u8 = if button == 0 {
                0
            } else if button == 1 {
                2
            } else {
                1
            };
            &&& events.len() == 1
            &&& events[0] matches InputEvent::Mouse { dx, dy, wheel, buttons } && dx == 0 && dy == 0
                && wheel == 0 && buttons == after.buttons
            &&& (after.buttons >> own) % 2 == (if down {
                1u8
            } else {
                0u8
            })
            &&& other != own ==> (after.buttons >> other) % 2 == (translator.buttons >> other) % 2
            &&& after.pointer_position == translator.pointer_position
        }),
{
    let own: u8 = if button == 0 {
        0
    } else if button == 1 {
        2
    } else {
        1
    };
    crate::usb::hid::keyboard::lemma_modifier_bits(translator.buttons, own, other);
}

/// The fourth button turns the wheel up by one, and the fifth down by one, once each time that it
/// is pressed. No other button turns it, and the pressed buttons stay.
pub proof fn two_buttons_turn_the_wheel(translator: VncInputTranslator, button: u8, down: bool)
    requires
        button >= 3,
    ensures
        ({
            let events = translator.translated(VncInputEvent::MouseButton { button, down }).1;
            &&& button <= 4 && down ==> events.len() == 1 && (events[0] matches InputEvent::Mouse {
                dx,
                dy,
                wheel,
                buttons,
            } && dx == 0 && dy == 0 && wheel == 7 - 2 * button && buttons == translator.buttons)
            &&& button > 4 || !down ==> events.len() == 0
        }),
{
}

/// A key of the client is handed on as it is pressed and as it is released, under one usage.
/// A motion is handed on as it is, with the pressed buttons.
pub proof fn keys_and_motions_are_handed_on(
    translator: VncInputTranslator,
    key: u32,
    down: bool,
    dx: i16,
    dy: i16,
)
    ensures
        ({
            let (same, keys) = translator.translated(VncInputEvent::Keyboard { key, down });
            let (still, moves) = translator.translated(VncInputEvent::PointerMove { dx, dy });
            &&& same == translator && still == translator
            &&& keys.len() == (if usage_of(key) is Some {
                1int
            } else {
                0
            })
            &&& keys.len() == 1 ==> (keys[0] matches InputEvent::Key { usage, pressed } && Some(usage)
                == usage_of(key) && pressed == down)
            &&& total(moves) == (dx as int, dy as int)
            &&& moves.len() == 1 && (moves[0] matches InputEvent::Mouse { wheel, buttons, .. }
                && wheel == 0 && buttons == translator.buttons)
        }),
{
    let moves = translator.translated(VncInputEvent::PointerMove { dx, dy }).1;
    reveal_with_fuel(total, 2);
    assert(moves.skip(1).len() == 0 && moves.drop_last().len() == 0);
}

} // verus!
