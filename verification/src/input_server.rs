//! Takes the records of one input client at a time.
//!
//! The server decides what to do next; its owner does it and tells the server what came of
//! it.
use vstd::prelude::*;

use crate::input_protocol::{
    Delivered, InputEvent, InputProtocolError, ReadOutcome, RecordReader, RECORD_SIZE,
};

verus! {

/// How long a read waits for a client.
pub const READ_TIMEOUT_MS: u64 = 100;
/// The pause while there is no client.
pub const NO_CLIENT_PAUSE_MS: u64 = 50;
/// The pause after a client could not be accepted.
pub const ACCEPT_FAILED_PAUSE_MS: u64 = 100;

/// What the server learns.
pub enum InputServerEvent {
    /// It is time for the next turn; whether the server is to stop.
    Turn { stopped: bool },
    /// A client was accepted.
    Accepted,
    /// There was no client.
    NoClient,
    /// A client could not be accepted.
    AcceptFailed,
    /// The client could not be prepared.
    PrepareFailed,
    /// What a read delivered; of one that failed, whether it only came too late.
    Read { outcome: ReadOutcome, timed_out: bool },
}

/// What the server does next.
#[derive(Clone, Copy, Debug, PartialEq, Eq)]
pub enum InputServerAction {
    /// Start the next turn.
    Turn,
    /// Look for a client.
    Accept,
    /// Pause for some milliseconds, then start the next turn.
    Pause(u64),
    /// Let the reads of the client wait for some milliseconds, then start the next turn.
    Prepare(u64),
    /// Read up to some bytes.
    Read(usize),
    /// Give an event to the devices, then start the next turn.
    Apply(InputEvent),
    /// Drop the client, with the error in its records, if there was one. Release all input,
    /// then start the next turn.
    Release(Option<InputProtocolError>),
    /// Release all input and leave.
    Exit,
}

/// What the server learns, as a value.
pub enum Learned {
    Turn { stopped: bool },
    Accepted,
    NoClient,
    AcceptFailed,
    PrepareFailed,
    Read { outcome: Delivered, timed_out: bool },
}

impl View for InputServerEvent {
    type V = Learned;

    open spec fn view(&self) -> Learned {
        match *self {
            InputServerEvent::Turn { stopped } => Learned::Turn { stopped },
            InputServerEvent::Accepted => Learned::Accepted,
            InputServerEvent::NoClient => Learned::NoClient,
            InputServerEvent::AcceptFailed => Learned::AcceptFailed,
            InputServerEvent::PrepareFailed => Learned::PrepareFailed,
            InputServerEvent::Read { outcome, timed_out } => Learned::Read {
                outcome: outcome@,
                timed_out,
            },
        }
    }
}

/// The state of the server: whether it has a client, and how much of a record has arrived.
pub struct Listening {
    pub serving: bool,
    pub record: Seq<u8>,
}

impl Listening {
    pub open spec fn fresh() -> Listening {
        Listening { serving: false, record: Seq::empty() }
    }

    /// No record is whole, and without a client there is none.
    pub open spec fn valid(self) -> bool {
        self.record.len() < RECORD_SIZE && (!self.serving ==> self.record.len() == 0)
    }

    /// A read of the rest of a record.
    pub open spec fn reading(self) -> (Listening, InputServerAction) {
        (self, InputServerAction::Read((RECORD_SIZE - self.record.len()) as usize))
    }

    /// The client dropped, and what it holds released.
    pub open spec fn dropped(self, error: Option<InputProtocolError>) -> (
        Listening,
        InputServerAction,
    ) {
        (Listening::fresh(), InputServerAction::Release(error))
    }

    /// What a read leads to. A read that came too late is tried again in the next turn, for
    /// the rest of the record.
    pub open spec fn delivered(self, outcome: Delivered, timed_out: bool) -> (
        Listening,
        InputServerAction,
    ) {
        let (record, result) = crate::input_protocol::record_step(self.record, outcome);
        let next = Listening { record, ..self };
        if outcome is Failed && timed_out {
            (self, InputServerAction::Turn)
        } else {
            match result {
                None => next.reading(),
                Some(Ok(Some(event))) => (next, InputServerAction::Apply(event)),
                Some(Ok(None)) => next.dropped(None),
                Some(Err(error)) => next.dropped(Some(error)),
            }
        }
    }

    /// One step. An event that does not belong to the state is passed over.
    pub open spec fn stepped(self, event: Learned) -> (Listening, InputServerAction) {
        match event {
            Learned::Turn { stopped } => if self.serving {
                if stopped {
                    self.dropped(None)
                } else {
                    self.reading()
                }
            } else if stopped {
                (self, InputServerAction::Exit)
            } else {
                (self, InputServerAction::Accept)
            },
            Learned::Accepted => if self.serving {
                (self, InputServerAction::Turn)
            } else {
                (
                    Listening { serving: true, ..self },
                    InputServerAction::Prepare(READ_TIMEOUT_MS),
                )
            },
            Learned::NoClient => (self, InputServerAction::Pause(NO_CLIENT_PAUSE_MS)),
            Learned::AcceptFailed => (self, InputServerAction::Pause(ACCEPT_FAILED_PAUSE_MS)),
            Learned::PrepareFailed => self.dropped(None),
            Learned::Read { outcome, timed_out } => if self.serving {
                self.delivered(outcome, timed_out)
            } else {
                (self, InputServerAction::Turn)
            },
        }
    }
}

pub struct InputServer {
    serving: bool,
    reader: RecordReader,
}

impl View for InputServer {
    type V = Listening;

    closed spec fn view(&self) -> Listening {
        Listening { serving: self.serving, record: self.reader@ }
    }
}

impl InputServer {
    pub fn new() -> (r: Self)
        ensures
            r@.valid(),
            r@ == Listening::fresh(),
    {
        InputServer { serving: false, reader: RecordReader::new() }
    }

    fn read_more(&self) -> (r: InputServerAction)
        requires
            self@.valid(),
        ensures
            (self@, r) == self@.reading(),
    {
        InputServerAction::Read(self.reader.wanted())
    }

    fn drop_client(&mut self, error: Option<InputProtocolError>) -> (r: InputServerAction)
        ensures
            (final(self)@, r) == old(self)@.dropped(error),
    {
        self.serving = false;
        self.reader = RecordReader::new();
        InputServerAction::Release(error)
    }

    /// Takes an event and says what to do next. No read may deliver more than it was to.
    pub fn server_step(&mut self, event: InputServerEvent) -> (r: InputServerAction)
        requires
            old(self)@.valid(),
            event@ matches Learned::Read { outcome: Delivered::Data(bytes), .. } ==> old(
                self,
            )@.record.len() + bytes.len() <= RECORD_SIZE,
        ensures
            final(self)@.valid(),
            (final(self)@, r) == old(self)@.stepped(event@),
    {
        match event {
            InputServerEvent::Turn { stopped } => {
                if self.serving {
                    if stopped {
                        self.drop_client(None)
                    } else {
                        self.read_more()
                    }
                } else if stopped {
                    InputServerAction::Exit
                } else {
                    InputServerAction::Accept
                }
            },
            InputServerEvent::Accepted => {
                if self.serving {
                    InputServerAction::Turn
                } else {
                    self.serving = true;
                    InputServerAction::Prepare(READ_TIMEOUT_MS)
                }
            },
            InputServerEvent::NoClient => InputServerAction::Pause(NO_CLIENT_PAUSE_MS),
            InputServerEvent::AcceptFailed => InputServerAction::Pause(ACCEPT_FAILED_PAUSE_MS),
            InputServerEvent::PrepareFailed => self.drop_client(None),
            InputServerEvent::Read { outcome, timed_out } => {
                if !self.serving {
                    return InputServerAction::Turn;
                }
                if timed_out && matches!(outcome, ReadOutcome::Failed) {
                    return InputServerAction::Turn;
                }
                match self.reader.step(outcome) {
                    None => self.read_more(),
                    Some(Ok(Some(event))) => InputServerAction::Apply(event),
                    Some(Ok(None)) => self.drop_client(None),
                    Some(Err(error)) => self.drop_client(Some(error)),
                }
            },
        }
    }
}

/// A client never leaves input behind: whenever a step ends with the client gone, it releases
/// all input.
pub proof fn a_client_leaves_nothing_pressed(state: Listening, event: Learned)
    requires
        state.valid(),
        state.serving,
    ensures
        ({
            let (next, action) = state.stepped(event);
            &&& !next.serving <==> action is Release
            &&& action !is Exit
        }),
{
}

/// A server that is stopped releases all input and leaves: at once, or first for its client
/// and then once more.
pub proof fn stopping_releases_the_input(state: Listening)
    requires
        state.valid(),
    ensures
        ({
            let (next, action) = state.stepped(Learned::Turn { stopped: true });
            if state.serving {
                action is Release && next.stepped(Learned::Turn { stopped: true }).1 is Exit
            } else {
                action is Exit
            }
        }),
{
}

/// The record of an event, read at once, gives the event to the devices.
pub proof fn records_reach_the_devices(state: Listening, event: InputEvent)
    requires
        state.valid(),
        state.serving,
        state.record.len() == 0,
    ensures
        state.stepped(Learned::Turn { stopped: false }).1 == InputServerAction::Read(RECORD_SIZE),
        state.stepped(
            Learned::Read {
                outcome: Delivered::Data(crate::input_protocol::encoded(event)),
                timed_out: false,
            },
        ) == (state, InputServerAction::Apply(event)),
{
    crate::input_protocol::events_survive_their_records(event);
    assert(state.record + crate::input_protocol::encoded(event)
        =~= crate::input_protocol::encoded(event));
    assert(state.record =~= Seq::<u8>::empty());
}

/// A record may arrive in pieces, however long the client pauses between them.
pub proof fn fragments_reach_the_devices(state: Listening, event: InputEvent, cut: nat)
    requires
        state.valid(),
        state.serving,
        state.record.len() == 0,
        0 < cut < RECORD_SIZE,
    ensures
        ({
            let bytes = crate::input_protocol::encoded(event);
            let first = Learned::Read {
                outcome: Delivered::Data(bytes.take(cut as int)),
                timed_out: false,
            };
            let late = Learned::Read { outcome: Delivered::Failed, timed_out: true };
            let second = Learned::Read {
                outcome: Delivered::Data(bytes.skip(cut as int)),
                timed_out: false,
            };
            let s1 = state.stepped(first);
            let s2 = s1.0.stepped(late);
            let s3 = s2.0.stepped(Learned::Turn { stopped: false });
            let s4 = s3.0.stepped(second);
            &&& s2.1 is Turn
            &&& s3.1 == InputServerAction::Read((RECORD_SIZE - cut) as usize)
            &&& s4 == (state, InputServerAction::Apply(event))
        }),
{
    let bytes = crate::input_protocol::encoded(event);
    crate::input_protocol::events_survive_their_records(event);
    assert(state.record =~= Seq::<u8>::empty());
    assert(state.record + bytes.take(cut as int) =~= bytes.take(cut as int));
    assert(bytes.take(cut as int) + bytes.skip(cut as int) =~= bytes);
}

} // verus!
