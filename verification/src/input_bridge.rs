//! Passes the input of a remote client on to the socket of the input devices.
//!
//! The bridge decides what to do next; its owner does it and tells the bridge what came of it.
use vstd::prelude::*;

use crate::input_protocol::InputEvent;
use crate::vnc::VncInputEvent;
use crate::vnc_input::VncInputTranslator;

verus! {

/// How long the bridge waits for input before it looks whether it is to stop.
pub const INPUT_WAIT_MS: u64 = 50;
/// How long the bridge waits between two attempts to connect, a quarter of a second.
pub const RECONNECT_NANOS: u64 = 250_000_000;

/// What the bridge learns. Times are nanoseconds of a clock that does not go back.
#[derive(Clone, Copy, Debug, PartialEq, Eq)]
pub enum BridgeEvent {
    /// It is time for the next turn; whether the bridge is to stop.
    Turn { now: u64, stopped: bool },
    /// The socket was connected.
    Connected,
    /// The socket could not be connected.
    ConnectFailed { now: u64 },
    /// An event was sent.
    Sent { now: u64 },
    /// An event could not be sent.
    SendFailed { now: u64 },
    /// There is input.
    Input(VncInputEvent),
    /// No input came in time.
    Quiet,
    /// There will be no more input.
    SourceGone,
}

/// What the bridge does next.
#[derive(Clone, Copy, Debug, PartialEq, Eq)]
pub enum BridgeAction {
    /// Start the next turn.
    Turn,
    /// Connect the socket.
    Connect,
    /// Send an event to the socket.
    Send(InputEvent),
    /// Wait for input for some milliseconds.
    Receive(u64),
    /// Leave.
    Exit,
}

/// What the bridge waits for.
#[derive(Clone, Copy, Debug, PartialEq, Eq)]
pub enum BridgePhase {
    /// A turn, or input.
    Idle,
    /// The socket.
    Connecting,
    /// The event that is sent first to a new connection.
    Greeting,
    /// An event that is sent to the connection.
    Sending,
    /// The event that is sent last.
    Closing,
}

/// The state of a bridge; `queue` holds the events that are to be sent after the one that is
/// being sent.
pub struct Bridging {
    pub translator: VncInputTranslator,
    pub connected: bool,
    pub next_connect: u64,
    pub phase: BridgePhase,
    pub queue: Seq<InputEvent>,
}

/// When the bridge connects again after an attempt.
pub open spec fn retry_at(now: u64) -> u64 {
    if now + RECONNECT_NANOS <= u64::MAX {
        (now + RECONNECT_NANOS) as u64
    } else {
        u64::MAX
    }
}

impl Bridging {
    pub open spec fn fresh(now: u64) -> Bridging {
        Bridging {
            translator: VncInputTranslator::initial(),
            connected: false,
            next_connect: now,
            phase: BridgePhase::Idle,
            queue: Seq::empty(),
        }
    }

    /// Only a connection gets events, and only while there is none is one made.
    pub open spec fn valid(self) -> bool {
        match self.phase {
            BridgePhase::Idle => true,
            BridgePhase::Connecting | BridgePhase::Greeting => !self.connected,
            BridgePhase::Sending | BridgePhase::Closing => self.connected,
        }
    }

    /// The end: a connection is told first to release all input.
    pub open spec fn closed(self) -> (Bridging, BridgeAction) {
        if self.connected {
            (
                Bridging { phase: BridgePhase::Closing, ..self },
                BridgeAction::Send(InputEvent::ReleaseAll),
            )
        } else {
            (self, BridgeAction::Exit)
        }
    }

    /// Input is awaited.
    pub open spec fn awaiting(self) -> (Bridging, BridgeAction) {
        (Bridging { phase: BridgePhase::Idle, ..self }, BridgeAction::Receive(INPUT_WAIT_MS))
    }

    /// The next event of the queue is sent, if there is one.
    pub open spec fn continued(self) -> (Bridging, BridgeAction) {
        if self.queue.len() == 0 {
            (Bridging { phase: BridgePhase::Idle, ..self }, BridgeAction::Turn)
        } else {
            (
                Bridging { phase: BridgePhase::Sending, queue: self.queue.skip(1), ..self },
                BridgeAction::Send(self.queue[0]),
            )
        }
    }

    /// One step. Without a connection input is translated and dropped. An event that does not
    /// belong to the phase is passed over.
    pub open spec fn stepped(self, event: BridgeEvent) -> (Bridging, BridgeAction) {
        match (self.phase, event) {
            (BridgePhase::Idle, BridgeEvent::Turn { now, stopped }) => if stopped {
                self.closed()
            } else if !self.connected && now >= self.next_connect {
                (Bridging { phase: BridgePhase::Connecting, ..self }, BridgeAction::Connect)
            } else {
                self.awaiting()
            },
            (BridgePhase::Connecting, BridgeEvent::Connected) => (
                Bridging { phase: BridgePhase::Greeting, ..self },
                BridgeAction::Send(InputEvent::ReleaseAll),
            ),
            (BridgePhase::Connecting, BridgeEvent::ConnectFailed { now }) => (Bridging {
                next_connect: retry_at(now),
                ..self
            }).awaiting(),
            (BridgePhase::Greeting, BridgeEvent::Sent { now }) => (Bridging {
                connected: true,
                translator: VncInputTranslator::initial(),
                next_connect: retry_at(now),
                ..self
            }).awaiting(),
            (BridgePhase::Greeting, BridgeEvent::SendFailed { now }) => (Bridging {
                next_connect: retry_at(now),
                ..self
            }).awaiting(),
            (BridgePhase::Idle, BridgeEvent::Input(input)) => {
                let (translator, events) = self.translator.translated(input);
                (Bridging {
                    translator,
                    queue: if self.connected {
                        events
                    } else {
                        Seq::empty()
                    },
                    ..self
                }).continued()
            },
            (BridgePhase::Idle, BridgeEvent::SourceGone) => self.closed(),
            (BridgePhase::Sending, BridgeEvent::Sent { .. }) => self.continued(),
            (BridgePhase::Sending, BridgeEvent::SendFailed { now }) => (
                Bridging::fresh(now),
                BridgeAction::Turn,
            ),
            (BridgePhase::Closing, _) => (self, BridgeAction::Exit),
            _ => (self, BridgeAction::Turn),
        }
    }
}

pub struct Bridge {
    translator: VncInputTranslator,
    connected: bool,
    next_connect: u64,
    phase: BridgePhase,
    queue: Vec<InputEvent>,
}

impl View for Bridge {
    type V = Bridging;

    closed spec fn view(&self) -> Bridging {
        Bridging {
            translator: self.translator,
            connected: self.connected,
            next_connect: self.next_connect,
            phase: self.phase,
            queue: self.queue@,
        }
    }
}

fn retry_time(now: u64) -> (r: u64)
    ensures
        r == retry_at(now),
{
    now.saturating_add(RECONNECT_NANOS)
}

impl Bridge {
    /// A bridge without a connection, which it makes at once.
    pub fn new(now: u64) -> (r: Self)
        ensures
            r@ == Bridging::fresh(now),
            r@.valid(),
    {
        Bridge {
            translator: VncInputTranslator::default(),
            connected: false,
            next_connect: now,
            phase: BridgePhase::Idle,
            queue: Vec::new(),
        }
    }

    fn close(&mut self) -> (r: BridgeAction)
        ensures
            (final(self)@, r) == old(self)@.closed(),
    {
        if self.connected {
            self.phase = BridgePhase::Closing;
            BridgeAction::Send(InputEvent::ReleaseAll)
        } else {
            BridgeAction::Exit
        }
    }

    fn await_input(&mut self) -> (r: BridgeAction)
        ensures
            (final(self)@, r) == old(self)@.awaiting(),
    {
        self.phase = BridgePhase::Idle;
        BridgeAction::Receive(INPUT_WAIT_MS)
    }

    fn send_next(&mut self) -> (r: BridgeAction)
        ensures
            (final(self)@, r) == old(self)@.continued(),
    {
        if self.queue.len() == 0 {
            self.phase = BridgePhase::Idle;
            return BridgeAction::Turn;
        }
        self.phase = BridgePhase::Sending;
        let event = self.queue.remove(0);
        assert(self.queue@ =~= old(self)@.queue.skip(1));
        BridgeAction::Send(event)
    }

    /// Takes an event and says what to do next.
    pub fn bridge_step(&mut self, event: BridgeEvent) -> (r: BridgeAction)
        requires
            old(self)@.valid(),
        ensures
            final(self)@.valid(),
            (final(self)@, r) == old(self)@.stepped(event),
    {
        match (self.phase, event) {
            (BridgePhase::Idle, BridgeEvent::Turn { now, stopped }) => {
                if stopped {
                    self.close()
                } else if !self.connected && now >= self.next_connect {
                    self.phase = BridgePhase::Connecting;
                    BridgeAction::Connect
                } else {
                    self.await_input()
                }
            },
            (BridgePhase::Connecting, BridgeEvent::Connected) => {
                self.phase = BridgePhase::Greeting;
                BridgeAction::Send(InputEvent::ReleaseAll)
            },
            (BridgePhase::Connecting, BridgeEvent::ConnectFailed { now }) => {
                self.next_connect = retry_time(now);
                self.await_input()
            },
            (BridgePhase::Greeting, BridgeEvent::Sent { now }) => {
                self.connected = true;
                self.translator.reset();
                self.next_connect = retry_time(now);
                self.await_input()
            },
            (BridgePhase::Greeting, BridgeEvent::SendFailed { now }) => {
                self.next_connect = retry_time(now);
                self.await_input()
            },
            (BridgePhase::Idle, BridgeEvent::Input(input)) => {
                let events = self.translator.translate(&input);
                self.queue = if self.connected {
                    events
                } else {
                    Vec::new()
                };
                self.send_next()
            },
            (BridgePhase::Idle, BridgeEvent::SourceGone) => self.close(),
            (BridgePhase::Sending, BridgeEvent::Sent { .. }) => self.send_next(),
            (BridgePhase::Sending, BridgeEvent::SendFailed { now }) => {
                self.connected = false;
                self.translator.reset();
                self.next_connect = now;
                self.phase = BridgePhase::Idle;
                self.queue = Vec::new();
                BridgeAction::Turn
            },
            (BridgePhase::Closing, _) => BridgeAction::Exit,
            _ => BridgeAction::Turn,
        }
    }
}

/// A connection is used only after it was told to release all input: that is the first event
/// of every connection, and only when it has been sent does the bridge count as connected.
pub proof fn a_connection_starts_with_a_release(state: Bridging, event: BridgeEvent)
    requires
        state.valid(),
    ensures
        ({
            let (next, action) = state.stepped(event);
            &&& next.valid()
            &&& state.phase is Connecting && event is Connected ==> action == BridgeAction::Send(
                InputEvent::ReleaseAll,
            ) && next.phase is Greeting
            &&& next.phase is Greeting && !(state.phase is Greeting) ==> state.phase is Connecting
                && event is Connected
            &&& next.connected && !state.connected ==> state.phase is Greeting && event is Sent
                && next.translator == VncInputTranslator::initial()
            &&& action is Send && action != BridgeAction::Send(InputEvent::ReleaseAll)
                ==> next.connected
        }),
{
}

/// A lost connection leaves nothing behind: the bridge is as a new one, which connects at
/// once and so releases all input first.
pub proof fn a_lost_connection_is_forgotten(state: Bridging, now: u64, later: u64)
    requires
        state.valid(),
        state.phase is Sending,
        later >= now,
    ensures
        ({
            let (next, action) = state.stepped(BridgeEvent::SendFailed { now });
            &&& next == Bridging::fresh(now)
            &&& action is Turn
            &&& next.stepped(BridgeEvent::Turn { now: later, stopped: false }).1 is Connect
        }),
{
}

/// A bridge that is stopped, or whose input ends, tells its connection to release all input,
/// and leaves then whether that was sent or not.
pub proof fn stopping_releases_the_input(
    state: Bridging,
    event: BridgeEvent,
    outcome: BridgeEvent,
)
    requires
        state.valid(),
        state.phase is Idle,
        state.connected,
        event matches BridgeEvent::Turn { stopped, .. } ==> stopped,
        event is Turn || event is SourceGone,
    ensures
        state.stepped(event).1 == BridgeAction::Send(InputEvent::ReleaseAll),
        state.stepped(event).0.stepped(outcome).1 is Exit,
{
}

/// After an attempt to connect that failed, the next one is made a quarter of a second later,
/// and not before.
pub proof fn attempts_are_spaced(state: Bridging, failed: u64, now: u64)
    requires
        state.valid(),
        state.phase is Connecting,
        failed + RECONNECT_NANOS <= u64::MAX,
    ensures
        ({
            let waiting = state.stepped(BridgeEvent::ConnectFailed { now: failed }).0;
            let turn = waiting.stepped(BridgeEvent::Turn { now, stopped: false }).1;
            (turn is Connect) == (now >= failed + 250_000_000)
        }),
{
}

/// The state after `n` events were sent.
pub open spec fn after_sending(state: Bridging, now: u64, n: nat) -> (Bridging, BridgeAction)
    decreases n,
{
    if n == 0 {
        (state, BridgeAction::Turn)
    } else {
        after_sending(state, now, (n - 1) as nat).0.stepped(BridgeEvent::Sent { now })
    }
}

/// A connected bridge sends the events that an input stands for one after the other, in their
/// order, and then takes its next turn. Without a connection nothing is sent, but the position of
/// the pointer is kept.
pub proof fn input_is_sent_in_order(state: Bridging, input: VncInputEvent, now: u64, n: nat)
    requires
        state.valid(),
        state.phase is Idle,
    ensures
        ({
            let (translator, events) = state.translator.translated(input);
            let (first, action) = state.stepped(BridgeEvent::Input(input));
            let (next, then_action) = after_sending(first, now, n);
            &&& state.connected && events.len() > 0 ==> action == BridgeAction::Send(events[0])
            &&& state.connected && 0 < n < events.len() ==> then_action == BridgeAction::Send(
                events[n as int],
            )
            &&& state.connected && 0 < n && n == events.len() ==> then_action is Turn && next.phase
                is Idle
            &&& !state.connected || events.len() == 0 ==> action is Turn
            &&& first.translator == translator
        }),
{
    if state.connected {
        lemma_after_sending(state, input, now, n);
    }
}

proof fn lemma_after_sending(state: Bridging, input: VncInputEvent, now: u64, n: nat)
    requires
        state.phase is Idle,
        state.connected,
    ensures
        ({
            let events = state.translator.translated(input).1;
            let first = state.stepped(BridgeEvent::Input(input)).0;
            let (next, action) = after_sending(first, now, n);
            &&& n < events.len() ==> next.phase is Sending && next.queue == events.skip(n + 1int)
            &&& 0 < n < events.len() ==> action == BridgeAction::Send(events[n as int])
            &&& 0 < n && n == events.len() ==> action is Turn && next.phase is Idle
        }),
    decreases n,
{
    let events = state.translator.translated(input).1;
    if n > 0 && n <= events.len() {
        lemma_after_sending(state, input, now, (n - 1) as nat);
        let left = events.skip(n as int);
        if n < events.len() {
            assert(left[0] == events[n as int]);
            assert(left.skip(1) =~= events.skip(n + 1int));
        }
    }
}

} // verus!
