//! Fixed-size records that carry input events between processes.
use vstd::prelude::*;

use crate::bytes::{get_le16, push_range, range_of};

verus! {

pub const VERSION: u8 = 1;
pub const RECORD_SIZE: usize = 16;
pub const PAYLOAD_SIZE: usize = 8;

pub const KIND_KEY: u8 = 1;
pub const KIND_MOUSE: u8 = 2;
pub const KIND_RELEASE_ALL: u8 = 3;
pub const KIND_KEYBOARD_LEDS: u8 = 4;

#[derive(Clone, Copy, Debug, PartialEq, Eq)]
pub enum InputEvent {
    Key { usage: u8, pressed: bool },
    Mouse { dx: i16, dy: i16, wheel: i16, buttons: u8 },
    ReleaseAll,
    KeyboardLeds { num_lock: bool, caps_lock: bool, scroll_lock: bool },
}

/// Why no event could be read.
#[derive(Clone, Copy, Debug, PartialEq, Eq)]
pub enum InputProtocolError {
    /// The record does not start with the magic bytes.
    BadMagic,
    /// The record is of another version.
    UnsupportedVersion(u8),
    /// The payload does not fit the record.
    PayloadTooLarge,
    /// No event has this kind, length and payload.
    InvalidRecord { kind: u8, length: usize },
    /// The stream ended inside a record.
    Truncated,
    /// The stream could not be read.
    ReadFailed,
}

/// The four bytes that every record starts with.
pub open spec fn magic() -> Seq<u8> {
    seq![0x56u8, 0x48u8, 0x49u8, 0x44u8]
}

pub open spec fn bit(set: bool) -> u8 {
    if set {
        1
    } else {
        0
    }
}

/// The three lock states in one byte.
pub open spec fn led_byte(num_lock: bool, caps_lock: bool, scroll_lock: bool) -> u8 {
    bit(num_lock) | (bit(caps_lock) << 1) | (bit(scroll_lock) << 2)
}

pub open spec fn header(kind: u8, length: u16) -> Seq<u8> {
    magic() + seq![VERSION, kind] + crate::bytes::le16_bytes(length)
}

/// The record of an event.
pub open spec fn encoded(event: InputEvent) -> Seq<u8> {
    match event {
        InputEvent::Key { usage, pressed } => header(KIND_KEY, 2) + seq![usage, bit(pressed)]
            + crate::bytes::zeros(6),
        InputEvent::Mouse { dx, dy, wheel, buttons } => header(KIND_MOUSE, 7)
            + crate::bytes::le16_bytes(dx as u16) + crate::bytes::le16_bytes(dy as u16)
            + crate::bytes::le16_bytes(wheel as u16) + seq![buttons, 0u8],
        InputEvent::ReleaseAll => header(KIND_RELEASE_ALL, 0) + crate::bytes::zeros(8),
        InputEvent::KeyboardLeds { num_lock, caps_lock, scroll_lock } => header(
            KIND_KEYBOARD_LEDS,
            1,
        ) + seq![led_byte(num_lock, caps_lock, scroll_lock)] + crate::bytes::zeros(7),
    }
}

/// The event of a record of sixteen bytes.
pub open spec fn decoded(record: Seq<u8>) -> Result<InputEvent, InputProtocolError> {
    let kind = record[5];
    let length = crate::bytes::le16(record, 6) as usize;
    if record.take(4) != magic() {
        Err(InputProtocolError::BadMagic)
    } else if record[4] != VERSION {
        Err(InputProtocolError::UnsupportedVersion(record[4]))
    } else if length > PAYLOAD_SIZE {
        Err(InputProtocolError::PayloadTooLarge)
    } else if kind == KIND_KEY && length == 2 && record[9] <= 1 {
        Ok(InputEvent::Key { usage: record[8], pressed: record[9] != 0 })
    } else if kind == KIND_MOUSE && length == 7 {
        Ok(
            InputEvent::Mouse {
                dx: crate::bytes::le16(record, 8) as i16,
                dy: crate::bytes::le16(record, 10) as i16,
                wheel: crate::bytes::le16(record, 12) as i16,
                buttons: record[14],
            },
        )
    } else if kind == KIND_RELEASE_ALL && length == 0 {
        Ok(InputEvent::ReleaseAll)
    } else if kind == KIND_KEYBOARD_LEDS && length == 1 {
        Ok(
            InputEvent::KeyboardLeds {
                num_lock: record[8] & 1 != 0,
                caps_lock: record[8] & 2 != 0,
                scroll_lock: record[8] & 4 != 0,
            },
        )
    } else {
        Err(InputProtocolError::InvalidRecord { kind, length })
    }
}

fn bit_of(set: bool) -> (r: u8)
    ensures
        r == bit(set),
{
    if set {
        1
    } else {
        0
    }
}

impl InputEvent {
    pub fn encode(self) -> (r: [u8; 16])
        ensures
            r@ == encoded(self),
    {
        let mut record: [u8; 16] = [
            0x56,
            0x48,
            0x49,
            0x44,
            VERSION,
            0,
            0,
            0,
            0,
            0,
            0,
            0,
            0,
            0,
            0,
            0,
        ];
        match self {
            InputEvent::Key { usage, pressed } => {
                record[5] = KIND_KEY;
                record[6] = 2;
                record[8] = usage;
                record[9] = bit_of(pressed);
            },
            InputEvent::Mouse { dx, dy, wheel, buttons } => {
                let x: u16 = dx as u16;
                let y: u16 = dy as u16;
                let w: u16 = wheel as u16;
                record[5] = KIND_MOUSE;
                record[6] = 7;
                record[8] = (x % 0x100) as u8;
                record[9] = (x / 0x100) as u8;
                record[10] = (y % 0x100) as u8;
                record[11] = (y / 0x100) as u8;
                record[12] = (w % 0x100) as u8;
                record[13] = (w / 0x100) as u8;
                record[14] = buttons;
            },
            InputEvent::ReleaseAll => {
                record[5] = KIND_RELEASE_ALL;
            },
            InputEvent::KeyboardLeds { num_lock, caps_lock, scroll_lock } => {
                record[5] = KIND_KEYBOARD_LEDS;
                record[6] = 1;
                record[8] = bit_of(num_lock) | (bit_of(caps_lock) << 1) | (bit_of(scroll_lock)
                    << 2);
            },
        }
        assert(record@ =~= encoded(self));
        record
    }

    pub fn decode(record: &[u8; 16]) -> (r: Result<Self, InputProtocolError>)
        ensures
            r == decoded(record@),
    {
        let matching = record[0] == 0x56 && record[1] == 0x48 && record[2] == 0x49 && record[3]
            == 0x44;
        assert(matching == (record@.take(4) == magic())) by {
            if matching {
                assert(record@.take(4) =~= magic());
            } else {
                assert(record@.take(4)[0] == record@[0] && record@.take(4)[1] == record@[1]
                    && record@.take(4)[2] == record@[2] && record@.take(4)[3] == record@[3]);
            }
        }
        if !matching {
            return Err(InputProtocolError::BadMagic);
        }
        if record[4] != VERSION {
            return Err(InputProtocolError::UnsupportedVersion(record[4]));
        }
        let length: usize = get_le16(record, 6) as usize;
        if length > PAYLOAD_SIZE {
            return Err(InputProtocolError::PayloadTooLarge);
        }
        let kind: u8 = record[5];
        if kind == KIND_KEY && length == 2 && record[9] <= 1 {
            Ok(InputEvent::Key { usage: record[8], pressed: record[9] != 0 })
        } else if kind == KIND_MOUSE && length == 7 {
            Ok(
                InputEvent::Mouse {
                    dx: get_le16(record, 8) as i16,
                    dy: get_le16(record, 10) as i16,
                    wheel: get_le16(record, 12) as i16,
                    buttons: record[14],
                },
            )
        } else if kind == KIND_RELEASE_ALL && length == 0 {
            Ok(InputEvent::ReleaseAll)
        } else if kind == KIND_KEYBOARD_LEDS && length == 1 {
            Ok(
                InputEvent::KeyboardLeds {
                    num_lock: record[8] & 1 != 0,
                    caps_lock: record[8] & 2 != 0,
                    scroll_lock: record[8] & 4 != 0,
                },
            )
        } else {
            Err(InputProtocolError::InvalidRecord { kind, length })
        }
    }
}

/// Appends the record of an event to a byte stream.
pub fn write_event(writer: &mut Vec<u8>, event: InputEvent)
    ensures
        final(writer)@ == old(writer)@ + encoded(event),
{
    let record = event.encode();
    push_range(writer, &record, 0, 16);
    assert(record@.subrange(0, 16) =~= record@);
}

/// What one read of a stream delivered. No bytes stand for the end of the stream.
pub enum ReadOutcome {
    Data(Vec<u8>),
    Interrupted,
    Failed,
}

/// The same with the bytes as a sequence.
pub enum Delivered {
    Data(Seq<u8>),
    Interrupted,
    Failed,
}

impl View for ReadOutcome {
    type V = Delivered;

    open spec fn view(&self) -> Delivered {
        match self {
            ReadOutcome::Data(bytes) => Delivered::Data(bytes@),
            ReadOutcome::Interrupted => Delivered::Interrupted,
            ReadOutcome::Failed => Delivered::Failed,
        }
    }
}

/// One read for a record of which `record` has arrived: what has arrived then, and the
/// result, unless the record is still incomplete. The end of the stream between two records
/// is no error.
pub open spec fn record_step(record: Seq<u8>, outcome: Delivered) -> (
    Seq<u8>,
    Option<Result<Option<InputEvent>, InputProtocolError>>,
) {
    match outcome {
        Delivered::Interrupted => (record, None),
        Delivered::Failed => (Seq::empty(), Some(Err(InputProtocolError::ReadFailed))),
        Delivered::Data(bytes) => if bytes.len() == 0 && record.len() == 0 {
            (Seq::empty(), Some(Ok(None)))
        } else if bytes.len() == 0 {
            (Seq::empty(), Some(Err(InputProtocolError::Truncated)))
        } else if record.len() + bytes.len() < RECORD_SIZE {
            (record + bytes, None)
        } else {
            (
                Seq::empty(),
                Some(
                    match decoded(record + bytes) {
                        Ok(event) => Ok(Some(event)),
                        Err(error) => Err(error),
                    },
                ),
            )
        },
    }
}

/// Collects a record from a stream that delivers it in pieces.
pub struct RecordReader {
    record: Vec<u8>,
}

impl View for RecordReader {
    type V = Seq<u8>;

    closed spec fn view(&self) -> Seq<u8> {
        self.record@
    }
}

impl RecordReader {
    pub open spec fn valid(&self) -> bool {
        self@.len() < RECORD_SIZE
    }

    pub fn new() -> (r: Self)
        ensures
            r.valid(),
            r@ == Seq::<u8>::empty(),
    {
        RecordReader { record: Vec::new() }
    }

    /// How many bytes the record still lacks: no read may deliver more.
    pub fn wanted(&self) -> (r: usize)
        requires
            self.valid(),
        ensures
            r == RECORD_SIZE - self@.len(),
            r > 0,
    {
        RECORD_SIZE - self.record.len()
    }

    /// Takes the outcome of a read. `None` asks for another read.
    pub fn step(&mut self, outcome: ReadOutcome) -> (r: Option<
        Result<Option<InputEvent>, InputProtocolError>,
    >)
        requires
            old(self).valid(),
            outcome matches ReadOutcome::Data(bytes) ==> old(self)@.len() + bytes@.len()
                <= RECORD_SIZE,
        ensures
            final(self).valid(),
            (final(self)@, r) == record_step(old(self)@, outcome@),
    {
        match outcome {
            ReadOutcome::Interrupted => None,
            ReadOutcome::Failed => {
                self.record.clear();
                Some(Err(InputProtocolError::ReadFailed))
            },
            ReadOutcome::Data(mut bytes) => {
                if bytes.len() == 0 {
                    if self.record.len() == 0 {
                        assert(self@ =~= Seq::<u8>::empty());
                        return Some(Ok(None));
                    }
                    self.record.clear();
                    return Some(Err(InputProtocolError::Truncated));
                }
                self.record.append(&mut bytes);
                if self.record.len() < RECORD_SIZE {
                    return None;
                }
                let record = record_array(&self.record);
                self.record.clear();
                match InputEvent::decode(&record) {
                    Ok(event) => Some(Ok(Some(event))),
                    Err(error) => Some(Err(error)),
                }
            },
        }
    }
}

impl Default for RecordReader {
    fn default() -> (r: Self)
        ensures
            r.valid(),
            r@ == Seq::<u8>::empty(),
    {
        Self::new()
    }
}

fn record_array(bytes: &[u8]) -> (r: [u8; 16])
    requires
        bytes@.len() == 16,
    ensures
        r@ == bytes@,
{
    let r: [u8; 16] = [
        bytes[0],
        bytes[1],
        bytes[2],
        bytes[3],
        bytes[4],
        bytes[5],
        bytes[6],
        bytes[7],
        bytes[8],
        bytes[9],
        bytes[10],
        bytes[11],
        bytes[12],
        bytes[13],
        bytes[14],
        bytes[15],
    ];
    assert(r@ =~= bytes@);
    r
}

/// A byte stream that is wholly in memory.
pub struct ByteReader {
    bytes: Vec<u8>,
    position: usize,
}

impl View for ByteReader {
    type V = Seq<u8>;

    /// The bytes that are still to be read.
    closed spec fn view(&self) -> Seq<u8> {
        self.bytes@.skip(self.position as int)
    }
}

impl ByteReader {
    pub closed spec fn valid(&self) -> bool {
        self.position <= self.bytes@.len()
    }

    pub fn new(bytes: Vec<u8>) -> (r: Self)
        ensures
            r.valid(),
            r@ == bytes@,
    {
        assert(bytes@.skip(0) =~= bytes@);
        ByteReader { bytes, position: 0 }
    }

    /// Reads up to `wanted` bytes.
    pub fn read(&mut self, wanted: usize) -> (r: Vec<u8>)
        requires
            old(self).valid(),
        ensures
            final(self).valid(),
            if wanted <= old(self)@.len() {
                r@ == old(self)@.take(wanted as int) && final(self)@ == old(self)@.skip(
                    wanted as int,
                )
            } else {
                r@ == old(self)@ && final(self)@ == Seq::<u8>::empty()
            },
    {
        let left: usize = self.bytes.len() - self.position;
        let count: usize = if wanted <= left {
            wanted
        } else {
            left
        };
        let from: usize = self.position;
        let data = range_of(&self.bytes, from, from + count);
        self.position = from + count;
        assert(wanted <= left ==> data@ =~= old(self)@.take(wanted as int));
        assert(wanted <= left ==> self@ =~= old(self)@.skip(wanted as int));
        assert(wanted > left ==> data@ =~= old(self)@);
        assert(wanted > left ==> self@ =~= Seq::<u8>::empty());
        data
    }
}

/// Reads the next event of a byte stream: none at its end, and an error where the stream
/// ends inside a record.
pub fn read_event(reader: &mut ByteReader) -> (r: Result<Option<InputEvent>, InputProtocolError>)
    requires
        old(reader).valid(),
    ensures
        final(reader).valid(),
        if old(reader)@.len() == 0 {
            r == Ok::<Option<InputEvent>, InputProtocolError>(None) && final(reader)@.len() == 0
        } else if old(reader)@.len() < RECORD_SIZE {
            r == Err::<Option<InputEvent>, InputProtocolError>(InputProtocolError::Truncated)
                && final(reader)@.len() == 0
        } else {
            &&& final(reader)@ == old(reader)@.skip(RECORD_SIZE as int)
            &&& r == (match decoded(old(reader)@.take(RECORD_SIZE as int)) {
                Ok(event) => Ok(Some(event)),
                Err(error) => Err(error),
            })
        },
{
    let mut record = RecordReader::new();
    loop
        invariant
            reader.valid(),
            record.valid(),
            record@.len() == 0 ==> reader@ == old(reader)@,
            record@.len() != 0 ==> record@ == old(reader)@ && reader@.len() == 0,
        decreases reader@.len(), record@.len(),
    {
        let wanted: usize = record.wanted();
        let ghost so_far = record@;
        let data = reader.read(wanted);
        assert(so_far.len() == 0 ==> so_far + data@ =~= data@);
        match record.step(ReadOutcome::Data(data)) {
            Some(result) => {
                return result;
            },
            None => {},
        }
    }
}

proof fn lemma_i16_through_u16(x: i16, v: u16)
    by (bit_vector)
    ensures
        (x as u16) as i16 == x,
        (v as i16) as int == (if v >= 0x8000 {
            v - 0x1_0000
        } else {
            v + 0
        }),
{
}

proof fn lemma_led_bits(n: u8, c: u8, s: u8)
    by (bit_vector)
    requires
        n <= 1,
        c <= 1,
        s <= 1,
    ensures
        ((n | (c << 1) | (s << 2)) & 1 != 0) == (n == 1),
        ((n | (c << 1) | (s << 2)) & 2 != 0) == (c == 1),
        ((n | (c << 1) | (s << 2)) & 4 != 0) == (s == 1),
{
}

/// Decoding the record of an event gives the event.
pub proof fn events_survive_their_records(event: InputEvent)
    ensures
        encoded(event).len() == RECORD_SIZE,
        decoded(encoded(event)) == Ok::<InputEvent, InputProtocolError>(event),
{
    let record = encoded(event);
    assert(record.take(4) =~= magic());
    match event {
        InputEvent::Mouse { dx, dy, wheel, buttons } => {
            lemma_i16_through_u16(dx, 0);
            lemma_i16_through_u16(dy, 0);
            lemma_i16_through_u16(wheel, 0);
            assert(crate::bytes::le16(record, 8) == dx as u16);
            assert(crate::bytes::le16(record, 10) == dy as u16);
            assert(crate::bytes::le16(record, 12) == wheel as u16);
        },
        InputEvent::KeyboardLeds { num_lock, caps_lock, scroll_lock } => {
            lemma_led_bits(bit(num_lock), bit(caps_lock), bit(scroll_lock));
        },
        _ => {},
    }
}

/// A record that arrives in two pieces is read as one that arrives at once.
pub proof fn pieces_make_the_same_record(record: Seq<u8>, first: Seq<u8>, second: Seq<u8>)
    requires
        first.len() > 0,
        second.len() > 0,
        record.len() + first.len() + second.len() <= RECORD_SIZE,
    ensures
        ({
            let (partial, pending) = record_step(record, Delivered::Data(first));
            &&& pending is None
            &&& record_step(partial, Delivered::Data(second)) == record_step(
                record,
                Delivered::Data(first + second),
            )
        }),
{
    assert(record + first + second =~= record + (first + second));
}

/// The number in two bytes, in two's complement.
pub open spec fn signed_at(record: Seq<u8>, at: int) -> int {
    let number = crate::bytes::number_at(record, at, 2) as int;
    if number >= 0x8000 {
        number - 0x1_0000
    } else {
        number
    }
}

/// Whether a record starts as one of a kind: "VHID", version 1, the kind, and the length of what
/// follows.
pub open spec fn starts_as(record: Seq<u8>, kind: u8, length: nat) -> bool {
    &&& record[0] == 0x56 && record[1] == 0x48 && record[2] == 0x49 && record[3] == 0x44
    &&& record[4] == 1
    &&& record[5] == kind
    &&& crate::bytes::number_at(record, 6, 2) == length
}

/// What a record stands for: a key, the usage in byte 8 and whether it is pressed in byte 9; a
/// motion of the mouse, three signed numbers from byte 8 on and the buttons in byte 14; the
/// release of everything; or the locks of a keyboard, in the bits of byte 8. No other record is
/// accepted.
pub proof fn a_record_names_its_event(record: Seq<u8>)
    requires
        record.len() == 16,
    ensures
        starts_as(record, 1, 2) && record[9] <= 1 ==> decoded(record) == Ok::<
            InputEvent,
            InputProtocolError,
        >(InputEvent::Key { usage: record[8], pressed: record[9] == 1 }),
        starts_as(record, 2, 7) ==> (decoded(record) matches Ok(
            InputEvent::Mouse { dx, dy, wheel, buttons },
        ) && dx == signed_at(record, 8) && dy == signed_at(record, 10) && wheel == signed_at(
            record,
            12,
        ) && buttons == record[14]),
        starts_as(record, 3, 0) ==> decoded(record) == Ok::<InputEvent, InputProtocolError>(
            InputEvent::ReleaseAll,
        ),
        starts_as(record, 4, 1) ==> decoded(record) == Ok::<InputEvent, InputProtocolError>(
            InputEvent::KeyboardLeds {
                num_lock: record[8] % 2 == 1,
                caps_lock: record[8] / 2 % 2 == 1,
                scroll_lock: record[8] / 4 % 2 == 1,
            },
        ),
        decoded(record) is Ok ==> {
            ||| starts_as(record, 1, 2) && record[9] <= 1
            ||| starts_as(record, 2, 7)
            ||| starts_as(record, 3, 0)
            ||| starts_as(record, 4, 1)
        },
{
    crate::bytes::le16_is_a_number(record, 6);
    crate::bytes::le16_is_a_number(record, 8);
    crate::bytes::le16_is_a_number(record, 10);
    crate::bytes::le16_is_a_number(record, 12);
    lemma_i16_through_u16(0, crate::bytes::le16(record, 8));
    lemma_i16_through_u16(0, crate::bytes::le16(record, 10));
    lemma_i16_through_u16(0, crate::bytes::le16(record, 12));
    crate::bytes::lemma_byte_bits(record[8]);
    assert((record.take(4) == magic()) == (record[0] == 0x56 && record[1] == 0x48 && record[2]
        == 0x49 && record[3] == 0x44)) by {
        if record[0] == 0x56 && record[1] == 0x48 && record[2] == 0x49 && record[3] == 0x44 {
            assert(record.take(4) =~= magic());
        } else {
            let start = record.take(4);
            assert(start[0] == record[0] && start[1] == record[1] && start[2] == record[2]
                && start[3] == record[3]);
        }
    }
}

} // verus!
