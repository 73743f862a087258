//! A server for one remote framebuffer client at a time.
use vstd::prelude::*;

use crate::bytes::same_bytes;
use crate::framebuffer::RamfbConfig;
use crate::vnc::{
    absorb_read, check_update, client_init, drain_client_input, handshake, handshake_greeting,
    is_writable_format, security, security_offer, send_framebuffer_update, server_init,
    ClientState, SocketRead, VncError, VncInputEvent, MAX_CLIENT_MESSAGE_SIZE,
};

verus! {

/// The pause after an update, 25 times a second.
pub const UPDATE_INTERVAL_MS: u64 = 40;
/// The pause otherwise, also while nobody is connected.
pub const IDLE_INTERVAL_MS: u64 = 100;

/// Where a server listens.
#[derive(Debug, Clone)]
pub enum VncListenerType {
    Tcp { port: u16 },
    Unix { path: String },
}

#[derive(Debug, Clone)]
pub struct VncServerConfig {
    pub listener: VncListenerType,
}

/// What the server does next.
#[derive(Clone, Copy, Debug, PartialEq, Eq)]
pub enum ServerAction {
    /// Pause for some milliseconds.
    Wait(u64),
    /// Look for a client.
    Accept,
    /// Serve the client that was accepted.
    Serve,
    /// Release all input, and tell the owner where it asked for that.
    ReleaseInput { notify: bool },
    /// Leave.
    Exit,
}

/// What the server learns.
#[derive(Clone, Copy, Debug, PartialEq, Eq)]
pub enum ServerEvent {
    /// It is time for the next step; whether the framebuffer is there.
    Step { surface_initialized: bool },
    /// A client was accepted.
    Connected,
    /// There was no client, or none could be accepted.
    NoClient,
    /// The client is gone.
    ClientDone,
}

/// Whether the server runs, whether its owner wants to hear of disconnections (from the next
/// start on, and since the last start), and whether the framebuffer has been there since.
pub struct Serving {
    pub running: bool,
    pub hook: bool,
    pub active_hook: bool,
    pub ready: bool,
}

/// The server waits for the framebuffer once, then looks for clients until it is stopped.
pub open spec fn server_step(server: Serving, event: ServerEvent) -> (Serving, ServerAction) {
    match event {
        ServerEvent::Step { surface_initialized } => if !server.running {
            (server, ServerAction::Exit)
        } else if server.ready || surface_initialized {
            (Serving { ready: true, ..server }, ServerAction::Accept)
        } else {
            (server, ServerAction::Wait(IDLE_INTERVAL_MS))
        },
        ServerEvent::Connected => (server, ServerAction::Serve),
        ServerEvent::NoClient => (server, ServerAction::Wait(IDLE_INTERVAL_MS)),
        ServerEvent::ClientDone => (
            server,
            ServerAction::ReleaseInput { notify: server.active_hook },
        ),
    }
}

pub struct VncServer {
    pub config: VncServerConfig,
    pub running: bool,
    pub on_disconnect: bool,
    pub active_hook: bool,
    pub ready: bool,
}

impl View for VncServer {
    type V = Serving;

    open spec fn view(&self) -> Serving {
        Serving {
            running: self.running,
            hook: self.on_disconnect,
            active_hook: self.active_hook,
            ready: self.ready,
        }
    }
}

impl VncServer {
    pub fn new(config: VncServerConfig) -> (r: Self)
        ensures
            r.config == config,
            r@ == (Serving { running: false, hook: false, active_hook: false, ready: false }),
    {
        VncServer { config, running: false, on_disconnect: false, active_hook: false, ready: false }
    }

    /// The owner wants to hear of each disconnection, from the next start on.
    pub fn set_on_disconnect(&mut self)
        ensures
            final(self)@ == (Serving { hook: true, ..old(self)@ }),
            final(self).config == old(self).config,
    {
        self.on_disconnect = true;
    }

    /// Starts serving.
    pub fn start(&mut self)
        ensures
            final(self)@ == (Serving {
                running: true,
                hook: false,
                active_hook: old(self)@.hook,
                ready: false,
            }),
            final(self).config == old(self).config,
    {
        self.active_hook = self.on_disconnect;
        self.on_disconnect = false;
        self.ready = false;
        self.running = true;
    }

    pub fn stop(&mut self)
        ensures
            final(self)@ == (Serving { running: false, ..old(self)@ }),
            final(self).config == old(self).config,
    {
        self.running = false;
    }

    /// Takes an event and says what to do next.
    pub fn next(&mut self, event: ServerEvent) -> (r: ServerAction)
        ensures
            (final(self)@, r) == server_step(old(self)@, event),
            final(self).config == old(self).config,
    {
        match event {
            ServerEvent::Step { surface_initialized } => {
                if !self.running {
                    return ServerAction::Exit;
                }
                if self.ready || surface_initialized {
                    self.ready = true;
                    ServerAction::Accept
                } else {
                    ServerAction::Wait(IDLE_INTERVAL_MS)
                }
            },
            ServerEvent::Connected => ServerAction::Serve,
            ServerEvent::NoClient => ServerAction::Wait(IDLE_INTERVAL_MS),
            ServerEvent::ClientDone => ServerAction::ReleaseInput { notify: self.active_hook },
        }
    }
}

/// One connected client: its state, its input that makes no complete message yet, and the
/// framebuffer that it was sent last.
pub struct Session {
    pub state: ClientState,
    pub input: Seq<u8>,
    pub last_data: Option<Seq<u8>>,
}

impl Session {
    pub open spec fn fresh() -> Session {
        Session { state: ClientState::initial(), input: Seq::empty(), last_data: None }
    }

    /// Whether the client wants an update: it has asked for one, and the framebuffer has
    /// changed since the last or it has asked for all of it.
    pub open spec fn update_due(self, current: Option<Seq<u8>>) -> bool {
        match (self.state.framebuffer_request, current) {
            (Some(request), Some(data)) => self.last_data != Some(data) || !request.incremental,
            _ => false,
        }
    }

    /// The framebuffer `data` was sent: the client's request is served.
    pub open spec fn updated(self, data: Seq<u8>) -> Session {
        Session {
            state: ClientState { framebuffer_request: None, ..self.state },
            last_data: Some(data),
            ..self
        }
    }

    /// The update to send, if any. A client whose format puts a color past the pixel gets
    /// none.
    pub open spec fn update(
        self,
        current: Option<Seq<u8>>,
        writable: bool,
        config: Option<RamfbConfig>,
    ) -> Result<Option<Seq<u8>>, VncError> {
        if !self.update_due(current) || !writable {
            Ok(None)
        } else {
            match config {
                None => Err(VncError::FramebufferUnavailable),
                Some(config) => {
                    let data = current->0;
                    if crate::vnc::update_check(
                        data.len(),
                        config.width,
                        config.height,
                        config.stride,
                    ) is Err {
                        Err(VncError::BrokenPipe)
                    } else if config.width > 0 && config.height > 0
                        && !crate::vnc::writable_format(self.state.pixel_format) {
                        Err(VncError::PixelFieldsConflict)
                    } else {
                        Ok(
                            Some(
                                crate::vnc::update_header(config.width, config.height)
                                    + crate::vnc::rows(
                                    data,
                                    config.width,
                                    config.stride,
                                    self.state.pixel_format,
                                    config.height as nat,
                                ),
                            ),
                        )
                    }
                },
            }
        }
    }
}

/// Whether the client is gone, or whether there is something to read, by what a poll of the
/// connection reported.
pub open spec fn poll_outcome(polled: bool, broken: bool, readable: bool) -> Result<bool, VncError> {
    if polled && broken {
        Err(VncError::ConnectionReset)
    } else {
        Ok(polled && readable)
    }
}

pub fn check_poll(polled: bool, broken: bool, readable: bool) -> (r: Result<bool, VncError>)
    ensures
        r == poll_outcome(polled, broken, readable),
{
    if polled && broken {
        return Err(VncError::ConnectionReset);
    }
    Ok(polled && readable)
}

/// How long to pause after a turn of the session.
pub fn pause_after_turn(update_sent: bool) -> (r: u64)
    ensures
        r == (if update_sent {
            UPDATE_INTERVAL_MS
        } else {
            IDLE_INTERVAL_MS
        }),
{
    if update_sent {
        UPDATE_INTERVAL_MS
    } else {
        IDLE_INTERVAL_MS
    }
}

/// Describes the desktop to a client, which needs a framebuffer.
pub fn describe_desktop(config: Option<RamfbConfig>) -> (r: Result<Vec<u8>, VncError>)
    ensures
        match config {
            Some(c) => r is Ok && r->Ok_0@ == crate::vnc::server_init_message(c.width, c.height),
            None => r == Err::<Vec<u8>, VncError>(VncError::FramebufferUnavailable),
        },
{
    match config {
        None => Err(VncError::FramebufferUnavailable),
        Some(config) => {
            let mut message: Vec<u8> = Vec::new();
            server_init(&mut message, config.width, config.height);
            assert(message@ =~= crate::vnc::server_init_message(config.width, config.height));
            Ok(message)
        },
    }
}

/// How far the start of a session has come.
#[derive(Clone, Copy, Debug, PartialEq, Eq)]
pub enum StartPhase {
    /// Nothing was said.
    Begin,
    /// The version of the server is being sent.
    Greeting,
    /// The version of the client is awaited.
    Version,
    /// The security types are being sent, in version 3.8 or not.
    Offering(bool),
    /// The selected security type is awaited.
    Selection(bool),
    /// The reply is being sent, and the client may go on or not.
    Replying(Result<(), VncError>),
    /// The framebuffer is looked at.
    Desktop,
    /// The desktop is being described.
    Describing,
    /// The last word of the client is awaited.
    LastWord,
    /// The session has started, or never will.
    Over,
}

/// What the start of a session learns.
pub enum StartEvent {
    /// A client is there.
    Begin,
    /// What was to be sent was sent.
    Sent,
    /// What was to be read.
    Received(Vec<u8>),
    /// The framebuffer.
    Desktop(Option<RamfbConfig>),
}

/// What the start of a session learns, as a value.
pub enum StartInput {
    Begin,
    Sent,
    Received(Seq<u8>),
    Desktop(Option<RamfbConfig>),
}

/// What the start of a session does next.
pub enum StartAction {
    /// Send some bytes.
    Send(Vec<u8>),
    /// Read so many bytes.
    Read(usize),
    /// Look at the framebuffer.
    Look,
    /// Serve the client.
    Ready,
    /// Drop the client.
    Drop(VncError),
    /// Nothing.
    Nothing,
}

/// What the start of a session does next, as a value.
pub enum StartOutput {
    Send(Seq<u8>),
    Read(usize),
    Look,
    Ready,
    Drop(VncError),
    Nothing,
}

impl View for StartEvent {
    type V = StartInput;

    open spec fn view(&self) -> StartInput {
        match *self {
            StartEvent::Begin => StartInput::Begin,
            StartEvent::Sent => StartInput::Sent,
            StartEvent::Received(bytes) => StartInput::Received(bytes@),
            StartEvent::Desktop(config) => StartInput::Desktop(config),
        }
    }
}

impl View for StartAction {
    type V = StartOutput;

    open spec fn view(&self) -> StartOutput {
        match *self {
            StartAction::Send(bytes) => StartOutput::Send(bytes@),
            StartAction::Read(count) => StartOutput::Read(count),
            StartAction::Look => StartOutput::Look,
            StartAction::Ready => StartOutput::Ready,
            StartAction::Drop(error) => StartOutput::Drop(error),
            StartAction::Nothing => StartOutput::Nothing,
        }
    }
}

impl StartPhase {
    /// One step of the start. What does not belong to the phase is passed over.
    pub open spec fn stepped(self, event: StartInput) -> (StartPhase, StartOutput) {
        match (self, event) {
            (StartPhase::Begin, StartInput::Begin) => (
                StartPhase::Greeting,
                StartOutput::Send(crate::vnc::greeting()),
            ),
            (StartPhase::Greeting, StartInput::Sent) => (
                StartPhase::Version,
                StartOutput::Read(12),
            ),
            (StartPhase::Version, StartInput::Received(version)) => match crate::vnc::agreed_version(
                version,
            ) {
                Ok(newer) => (
                    StartPhase::Offering(newer),
                    StartOutput::Send(crate::vnc::offered_security(newer)),
                ),
                Err(error) => (StartPhase::Over, StartOutput::Drop(error)),
            },
            (StartPhase::Offering(newer), StartInput::Sent) => (
                StartPhase::Selection(newer),
                StartOutput::Read(1),
            ),
            (StartPhase::Selection(newer), StartInput::Received(selected)) => if selected.len()
                == 0 {
                (StartPhase::Over, StartOutput::Drop(VncError::Disconnected))
            } else {
                let (reply, verdict) = crate::vnc::security_verdict(newer, selected[0]);
                (StartPhase::Replying(verdict), StartOutput::Send(reply))
            },
            (StartPhase::Replying(verdict), StartInput::Sent) => match verdict {
                Ok(()) => (StartPhase::Desktop, StartOutput::Look),
                Err(error) => (StartPhase::Over, StartOutput::Drop(error)),
            },
            (StartPhase::Desktop, StartInput::Desktop(config)) => match config {
                Some(config) => (
                    StartPhase::Describing,
                    StartOutput::Send(
                        crate::vnc::server_init_message(config.width, config.height),
                    ),
                ),
                None => (StartPhase::Over, StartOutput::Drop(VncError::FramebufferUnavailable)),
            },
            (StartPhase::Describing, StartInput::Sent) => (
                StartPhase::LastWord,
                StartOutput::Read(1),
            ),
            (StartPhase::LastWord, StartInput::Received(shared)) => if shared.len() > 0 {
                (StartPhase::Over, StartOutput::Ready)
            } else {
                (StartPhase::Over, StartOutput::Drop(VncError::Disconnected))
            },
            _ => (self, StartOutput::Nothing),
        }
    }

    /// Takes an event and says what to do next.
    pub fn start_step(&mut self, event: StartEvent) -> (r: StartAction)
        ensures
            (*final(self), r@) == old(self).stepped(event@),
    {
        match (*self, event) {
            (StartPhase::Begin, StartEvent::Begin) => {
                *self = StartPhase::Greeting;
                StartAction::Send(handshake_greeting())
            },
            (StartPhase::Greeting, StartEvent::Sent) => {
                *self = StartPhase::Version;
                StartAction::Read(12)
            },
            (StartPhase::Version, StartEvent::Received(version)) => match handshake(&version) {
                Ok(newer) => {
                    *self = StartPhase::Offering(newer);
                    StartAction::Send(security_offer(newer))
                },
                Err(error) => {
                    *self = StartPhase::Over;
                    StartAction::Drop(error)
                },
            },
            (StartPhase::Offering(newer), StartEvent::Sent) => {
                *self = StartPhase::Selection(newer);
                StartAction::Read(1)
            },
            (StartPhase::Selection(newer), StartEvent::Received(selected)) => {
                if selected.len() == 0 {
                    *self = StartPhase::Over;
                    return StartAction::Drop(VncError::Disconnected);
                }
                let mut reply: Vec<u8> = Vec::new();
                let verdict = security(&mut reply, newer, selected[0]);
                assert(reply@ =~= crate::vnc::security_verdict(newer, selected@[0]).0);
                *self = StartPhase::Replying(verdict);
                StartAction::Send(reply)
            },
            (StartPhase::Replying(verdict), StartEvent::Sent) => match verdict {
                Ok(()) => {
                    *self = StartPhase::Desktop;
                    StartAction::Look
                },
                Err(error) => {
                    *self = StartPhase::Over;
                    StartAction::Drop(error)
                },
            },
            (StartPhase::Desktop, StartEvent::Desktop(config)) => match describe_desktop(config) {
                Ok(message) => {
                    *self = StartPhase::Describing;
                    StartAction::Send(message)
                },
                Err(error) => {
                    *self = StartPhase::Over;
                    StartAction::Drop(error)
                },
            },
            (StartPhase::Describing, StartEvent::Sent) => {
                *self = StartPhase::LastWord;
                StartAction::Read(1)
            },
            (StartPhase::LastWord, StartEvent::Received(shared)) => match client_init(&shared) {
                Ok(()) => {
                    *self = StartPhase::Over;
                    StartAction::Ready
                },
                Err(error) => {
                    *self = StartPhase::Over;
                    StartAction::Drop(error)
                },
            },
            _ => StartAction::Nothing,
        }
    }
}

/// A client of version 3.8 that selects no security and sends its last word is served. Before
/// that it gets the version of the server, the security types, the reply and the description
/// of the desktop, in this order.
pub proof fn a_session_starts_in_order(
    version: Seq<u8>,
    selected: Seq<u8>,
    config: RamfbConfig,
    shared: Seq<u8>,
)
    requires
        crate::vnc::agreed_version(version) == Ok::<bool, VncError>(true),
        selected.len() == 1,
        selected[0] == 1,
        shared.len() == 1,
    ensures
        ({
            let s1 = StartPhase::Begin.stepped(StartInput::Begin);
            let s2 = s1.0.stepped(StartInput::Sent);
            let s3 = s2.0.stepped(StartInput::Received(version));
            let s4 = s3.0.stepped(StartInput::Sent);
            let s5 = s4.0.stepped(StartInput::Received(selected));
            let s6 = s5.0.stepped(StartInput::Sent);
            let s7 = s6.0.stepped(StartInput::Desktop(Some(config)));
            let s8 = s7.0.stepped(StartInput::Sent);
            let s9 = s8.0.stepped(StartInput::Received(shared));
            &&& s1.1 == StartOutput::Send(crate::vnc::greeting())
            &&& s2.1 == StartOutput::Read(12)
            &&& s3.1 == StartOutput::Send(crate::vnc::offered_security(true))
            &&& s4.1 == StartOutput::Read(1)
            &&& s5.1 == StartOutput::Send(seq![0u8, 0u8, 0u8, 0u8])
            &&& s6.1 == StartOutput::Look
            &&& s7.1 == StartOutput::Send(
                crate::vnc::server_init_message(config.width, config.height),
            )
            &&& s8.1 == StartOutput::Read(1)
            &&& s9.1 == StartOutput::Ready
        }),
{
}

/// No client is told of the desktop before it was accepted, and none is served before it was
/// told: a step that looks at the framebuffer follows a reply that lets the client go on, and
/// a step that serves the client follows the description.
pub proof fn only_accepted_clients_are_served(phase: StartPhase, event: StartInput)
    ensures
        ({
            let (next, output) = phase.stepped(event);
            &&& output is Look ==> (phase matches StartPhase::Replying(verdict) && verdict is Ok)
            &&& next is Desktop && !(phase is Desktop) ==> output is Look
            &&& next is Describing && !(phase is Describing) ==> phase is Desktop
            &&& next is LastWord && !(phase is LastWord) ==> phase is Describing
            &&& output is Ready ==> phase is LastWord
            &&& output is Drop ==> next is Over
        }),
{
}

pub struct ClientSession {
    pub state: ClientState,
    pub input_buffer: Vec<u8>,
    pub last_data: Option<Vec<u8>>,
}

impl View for ClientSession {
    type V = Session;

    open spec fn view(&self) -> Session {
        Session {
            state: self.state,
            input: self.input_buffer@,
            last_data: match self.last_data {
                Some(data) => Some(data@),
                None => None,
            },
        }
    }
}

/// The bytes of a framebuffer that may be absent.
pub open spec fn pixels_of(data: Option<Vec<u8>>) -> Option<Seq<u8>> {
    match data {
        Some(bytes) => Some(bytes@),
        None => None,
    }
}

impl ClientSession {
    pub open spec fn valid(&self) -> bool {
        self.input_buffer@.len() <= MAX_CLIENT_MESSAGE_SIZE
    }

    pub fn new() -> (r: Self)
        ensures
            r.valid(),
            r@ == Session::fresh(),
    {
        ClientSession { state: ClientState::default(), input_buffer: Vec::new(), last_data: None }
    }

    /// Takes the outcome of one read; the result says whether to read again.
    pub fn absorb(&mut self, read: SocketRead) -> (r: Result<bool, VncError>)
        requires
            old(self).valid(),
        ensures
            r is Ok ==> final(self).valid(),
            (final(self)@.input, r) == crate::vnc::absorbed(old(self)@.input, read@),
            final(self)@ == (Session { input: final(self)@.input, ..old(self)@ }),
    {
        absorb_read(&mut self.input_buffer, read)
    }

    /// Handles every complete message that has arrived.
    pub fn drain(&mut self, events: &mut Vec<VncInputEvent>) -> (r: Result<(), VncError>)
        requires
            old(self).valid(),
        ensures
            final(self).valid(),
            ({
                let (input, state, added, result) = crate::vnc::drained(
                    old(self)@.input,
                    old(self)@.state,
                );
                &&& final(self)@ == (Session { input, state, ..old(self)@ })
                &&& final(events)@ == old(events)@ + added
                &&& r == result
            }),
    {
        proof {
            lemma_draining_shortens(self.input_buffer@, self.state);
        }
        drain_client_input(&mut self.input_buffer, events, &mut self.state)
    }

    pub fn update_due(&self, current: &Option<Vec<u8>>) -> (r: bool)
        ensures
            r == self@.update_due(pixels_of(*current)),
    {
        match (self.state.framebuffer_request, current) {
            (Some(request), Some(data)) => {
                let changed = match &self.last_data {
                    None => true,
                    Some(previous) => !same_bytes(previous, data),
                };
                changed || !request.incremental
            },
            _ => false,
        }
    }

    /// Builds the update that is due, if any, where the connection takes output.
    pub fn prepare_update(
        &self,
        current: &Option<Vec<u8>>,
        writable: bool,
        config: Option<RamfbConfig>,
    ) -> (r: Result<Option<Vec<u8>>, VncError>)
        requires
            self.valid(),
        ensures
            match r {
                Ok(sent) => self@.update(pixels_of(*current), writable, config) == Ok::<
                    Option<Seq<u8>>,
                    VncError,
                >(pixels_of(sent)),
                Err(error) => self@.update(pixels_of(*current), writable, config) == Err::<
                    Option<Seq<u8>>,
                    VncError,
                >(error),
            },
    {
        if !self.update_due(current) || !writable {
            return Ok(None);
        }
        match (current, config) {
            (Some(data), Some(config)) => {
                let mut message: Vec<u8> = Vec::new();
                if config.width > 0 && config.height > 0 && !is_writable_format(
                    self.state.pixel_format,
                ) {
                    return match check_update(
                        data.len(),
                        config.width,
                        config.height,
                        config.stride,
                    ) {
                        Ok(()) => Err(VncError::PixelFieldsConflict),
                        Err(_) => Err(VncError::BrokenPipe),
                    };
                }
                match send_framebuffer_update(
                    &mut message,
                    data,
                    config.width,
                    config.height,
                    config.stride,
                    self.state.pixel_format,
                ) {
                    Ok(()) => {
                        assert(message@ =~= crate::vnc::update_header(config.width, config.height)
                            + crate::vnc::rows(
                            data@,
                            config.width,
                            config.stride,
                            self.state.pixel_format,
                            config.height as nat,
                        ));
                        Ok(Some(message))
                    },
                    Err(_) => Err(VncError::BrokenPipe),
                }
            },
            _ => Err(VncError::FramebufferUnavailable),
        }
    }

    /// The framebuffer `data` was sent: the client's request is served.
    pub fn update_sent(&mut self, data: Vec<u8>)
        requires
            old(self).valid(),
        ensures
            final(self).valid(),
            final(self)@ == old(self)@.updated(data@),
    {
        self.last_data = Some(data);
        self.state.framebuffer_request = None;
    }
}

impl Default for ClientSession {
    fn default() -> (r: Self)
        ensures
            r.valid(),
            r@ == Session::fresh(),
    {
        Self::new()
    }
}

proof fn lemma_draining_shortens(input: Seq<u8>, state: ClientState)
    ensures
        crate::vnc::drained(input, state).0.len() <= input.len(),
    decreases input.len(),
{
    if let Ok(Some(size)) = crate::vnc::message_size(input) {
        if size != 0 && size <= input.len() {
            let (state2, events, result) = crate::vnc::after_message(
                state,
                input.take(size as int),
            );
            lemma_draining_shortens(input.skip(size as int), state2);
        }
    }
}

/// Where a client is in its turn.
#[derive(Clone, Copy, Debug, PartialEq, Eq)]
pub enum TurnPhase {
    /// Before the turn.
    Idle,
    /// The connection is polled for input.
    Polling,
    /// Input is read.
    Reading,
    /// Input events are passed on, and the client may stay or not.
    Forwarding(Result<(), VncError>),
    /// The framebuffer is copied.
    Capturing,
    /// The connection is polled for room for an update.
    Asking,
    /// An update is sent.
    Sending,
    /// The client is gone.
    Over,
}

/// What the turn of a client learns.
pub enum TurnEvent {
    /// It is time for the next turn; whether the server still runs.
    Turn { running: bool },
    /// What a poll reported: anything at all, a broken connection, input.
    Polled { polled: bool, broken: bool, readable: bool },
    /// The outcome of a read.
    Read(SocketRead),
    /// The input events were passed on.
    Forwarded,
    /// The framebuffer, if it is there.
    Captured(Option<Vec<u8>>),
    /// Whether there is room for an update, and the geometry of the framebuffer.
    Asked { writable: bool, config: Option<RamfbConfig> },
    /// The update was sent.
    Sent,
    /// The update could not be sent.
    SendFailed,
}

/// What the turn of a client learns, as a value.
pub enum TurnInput {
    Turn { running: bool },
    Polled { polled: bool, broken: bool, readable: bool },
    Read(crate::vnc::Received),
    Forwarded,
    Captured(Option<Seq<u8>>),
    Asked { writable: bool, config: Option<RamfbConfig> },
    Sent,
    SendFailed,
}

impl View for TurnEvent {
    type V = TurnInput;

    open spec fn view(&self) -> TurnInput {
        match *self {
            TurnEvent::Turn { running } => TurnInput::Turn { running },
            TurnEvent::Polled { polled, broken, readable } => TurnInput::Polled {
                polled,
                broken,
                readable,
            },
            TurnEvent::Read(read) => TurnInput::Read(read@),
            TurnEvent::Forwarded => TurnInput::Forwarded,
            TurnEvent::Captured(data) => TurnInput::Captured(pixels_of(data)),
            TurnEvent::Asked { writable, config } => TurnInput::Asked { writable, config },
            TurnEvent::Sent => TurnInput::Sent,
            TurnEvent::SendFailed => TurnInput::SendFailed,
        }
    }
}

/// What the turn of a client does next.
pub enum TurnAction {
    /// Poll the connection for input.
    Poll,
    /// Read.
    Read,
    /// Pass input events on.
    Forward(Vec<VncInputEvent>),
    /// Copy the framebuffer.
    Capture,
    /// Poll the connection for room.
    Ask,
    /// Send an update.
    Send(Vec<u8>),
    /// Pause for some milliseconds, then start the next turn.
    Pause(u64),
    /// Leave the client, for the server has stopped.
    Close,
    /// Drop the client.
    Drop(VncError),
    /// Nothing.
    Nothing,
}

/// What the turn of a client does next, as a value.
pub enum TurnOutput {
    Poll,
    Read,
    Forward(Seq<VncInputEvent>),
    Capture,
    Ask,
    Send(Seq<u8>),
    Pause(u64),
    Close,
    Drop(VncError),
    Nothing,
}

impl View for TurnAction {
    type V = TurnOutput;

    open spec fn view(&self) -> TurnOutput {
        match *self {
            TurnAction::Poll => TurnOutput::Poll,
            TurnAction::Read => TurnOutput::Read,
            TurnAction::Forward(events) => TurnOutput::Forward(events@),
            TurnAction::Capture => TurnOutput::Capture,
            TurnAction::Ask => TurnOutput::Ask,
            TurnAction::Send(bytes) => TurnOutput::Send(bytes@),
            TurnAction::Pause(pause) => TurnOutput::Pause(pause),
            TurnAction::Close => TurnOutput::Close,
            TurnAction::Drop(error) => TurnOutput::Drop(error),
            TurnAction::Nothing => TurnOutput::Nothing,
        }
    }
}

/// A client that is served: its session, its turn, and the framebuffer that an update is made
/// of.
pub struct Served {
    pub session: Session,
    pub phase: TurnPhase,
    pub current: Option<Seq<u8>>,
}

impl Served {
    pub open spec fn fresh() -> Served {
        Served { session: Session::fresh(), phase: TurnPhase::Idle, current: None }
    }

    pub open spec fn dropped(self, error: VncError) -> (Served, TurnOutput) {
        (Served { phase: TurnPhase::Over, ..self }, TurnOutput::Drop(error))
    }

    /// The end of a turn.
    pub open spec fn paused(self, pause: u64) -> (Served, TurnOutput) {
        (Served { phase: TurnPhase::Idle, current: None, ..self }, TurnOutput::Pause(pause))
    }

    /// Input is done; a client that has asked for an update may get one.
    pub open spec fn input_done(self) -> (Served, TurnOutput) {
        if self.session.state.framebuffer_request is Some {
            (Served { phase: TurnPhase::Capturing, ..self }, TurnOutput::Capture)
        } else {
            self.paused(IDLE_INTERVAL_MS)
        }
    }

    /// What has arrived is taken until nothing is left, and then handled.
    pub open spec fn read(self, read: crate::vnc::Received) -> (Served, TurnOutput) {
        let (input, outcome) = crate::vnc::absorbed(self.session.input, read);
        match outcome {
            Ok(true) => (
                Served { session: Session { input, ..self.session }, ..self },
                TurnOutput::Read,
            ),
            Ok(false) => {
                let (left, state, events, verdict) = crate::vnc::drained(input, self.session.state);
                (
                    Served {
                        session: Session { input: left, state, ..self.session },
                        phase: TurnPhase::Forwarding(verdict),
                        ..self
                    },
                    TurnOutput::Forward(events),
                )
            },
            Err(error) => (Served {
                session: Session { input, ..self.session },
                ..self
            }).dropped(error),
        }
    }

    /// One step of a turn: input comes first, then an update, then a pause. What does not
    /// belong to the phase is passed over.
    pub open spec fn stepped(self, event: TurnInput) -> (Served, TurnOutput) {
        match (self.phase, event) {
            (TurnPhase::Idle, TurnInput::Turn { running }) => if running {
                (Served { phase: TurnPhase::Polling, ..self }, TurnOutput::Poll)
            } else {
                (Served { phase: TurnPhase::Over, ..self }, TurnOutput::Close)
            },
            (TurnPhase::Polling, TurnInput::Polled { polled, broken, readable }) => {
                match poll_outcome(polled, broken, readable) {
                    Err(error) => self.dropped(error),
                    Ok(true) => (
                        Served { phase: TurnPhase::Reading, ..self },
                        TurnOutput::Read,
                    ),
                    Ok(false) => self.input_done(),
                }
            },
            (TurnPhase::Reading, TurnInput::Read(read)) => self.read(read),
            (TurnPhase::Forwarding(verdict), TurnInput::Forwarded) => match verdict {
                Ok(()) => self.input_done(),
                Err(error) => self.dropped(error),
            },
            (TurnPhase::Capturing, TurnInput::Captured(data)) => if self.session.update_due(data) {
                (
                    Served { phase: TurnPhase::Asking, current: data, ..self },
                    TurnOutput::Ask,
                )
            } else {
                self.paused(IDLE_INTERVAL_MS)
            },
            (TurnPhase::Asking, TurnInput::Asked { writable, config }) => {
                match self.session.update(self.current, writable, config) {
                    Ok(Some(message)) => (
                        Served { phase: TurnPhase::Sending, ..self },
                        TurnOutput::Send(message),
                    ),
                    Ok(None) => self.paused(IDLE_INTERVAL_MS),
                    Err(error) => self.dropped(error),
                }
            },
            (TurnPhase::Sending, TurnInput::Sent) => match self.current {
                Some(data) => (Served {
                    session: self.session.updated(data),
                    ..self
                }).paused(UPDATE_INTERVAL_MS),
                None => self.paused(UPDATE_INTERVAL_MS),
            },
            (TurnPhase::Sending, TurnInput::SendFailed) => self.dropped(VncError::BrokenPipe),
            _ => (self, TurnOutput::Nothing),
        }
    }
}

/// Serves a client in turns.
pub struct ClientTurns {
    pub session: ClientSession,
    pub phase: TurnPhase,
    pub current: Option<Vec<u8>>,
}

impl View for ClientTurns {
    type V = Served;

    open spec fn view(&self) -> Served {
        Served {
            session: self.session@,
            phase: self.phase,
            current: pixels_of(self.current),
        }
    }
}

impl ClientTurns {
    /// The session is valid as long as the client is there.
    pub open spec fn valid(&self) -> bool {
        self.phase is Over || self.session.valid()
    }

    pub fn new() -> (r: Self)
        ensures
            r.valid(),
            r@ == Served::fresh(),
    {
        ClientTurns { session: ClientSession::new(), phase: TurnPhase::Idle, current: None }
    }

    fn drop_client(&mut self, error: VncError) -> (r: TurnAction)
        ensures
            final(self).valid(),
            (final(self)@, r@) == old(self)@.dropped(error),
    {
        self.phase = TurnPhase::Over;
        TurnAction::Drop(error)
    }

    fn pause(&mut self, pause: u64) -> (r: TurnAction)
        requires
            old(self).session.valid(),
        ensures
            final(self).valid(),
            (final(self)@, r@) == old(self)@.paused(pause),
    {
        self.phase = TurnPhase::Idle;
        self.current = None;
        TurnAction::Pause(pause)
    }

    fn finish_input(&mut self) -> (r: TurnAction)
        requires
            old(self).session.valid(),
        ensures
            final(self).valid(),
            (final(self)@, r@) == old(self)@.input_done(),
    {
        if self.session.state.framebuffer_request.is_some() {
            self.phase = TurnPhase::Capturing;
            TurnAction::Capture
        } else {
            self.pause(IDLE_INTERVAL_MS)
        }
    }

    fn take_read(&mut self, read: SocketRead) -> (r: TurnAction)
        requires
            old(self).session.valid(),
        ensures
            final(self).valid(),
            (final(self)@, r@) == old(self)@.read(read@),
    {
        match self.session.absorb(read) {
            Ok(true) => TurnAction::Read,
            Ok(false) => {
                let mut events: Vec<VncInputEvent> = Vec::new();
                let ghost nothing = events@;
                let verdict = self.session.drain(&mut events);
                assert(nothing =~= Seq::<VncInputEvent>::empty());
                assert(forall|added: Seq<VncInputEvent>| #[trigger] (nothing + added) =~= added);
                self.phase = TurnPhase::Forwarding(verdict);
                TurnAction::Forward(events)
            },
            Err(error) => self.drop_client(error),
        }
    }

    /// Takes an event and says what to do next.
    pub fn turn_step(&mut self, event: TurnEvent) -> (r: TurnAction)
        requires
            old(self).valid(),
        ensures
            final(self).valid(),
            (final(self)@, r@) == old(self)@.stepped(event@),
    {
        match (self.phase, event) {
            (TurnPhase::Idle, TurnEvent::Turn { running }) => {
                if running {
                    self.phase = TurnPhase::Polling;
                    TurnAction::Poll
                } else {
                    self.phase = TurnPhase::Over;
                    TurnAction::Close
                }
            },
            (TurnPhase::Polling, TurnEvent::Polled { polled, broken, readable }) => {
                match check_poll(polled, broken, readable) {
                    Err(error) => self.drop_client(error),
                    Ok(true) => {
                        self.phase = TurnPhase::Reading;
                        TurnAction::Read
                    },
                    Ok(false) => self.finish_input(),
                }
            },
            (TurnPhase::Reading, TurnEvent::Read(read)) => self.take_read(read),
            (TurnPhase::Forwarding(verdict), TurnEvent::Forwarded) => match verdict {
                Ok(()) => self.finish_input(),
                Err(error) => self.drop_client(error),
            },
            (TurnPhase::Capturing, TurnEvent::Captured(data)) => {
                if self.session.update_due(&data) {
                    self.phase = TurnPhase::Asking;
                    self.current = data;
                    TurnAction::Ask
                } else {
                    self.pause(IDLE_INTERVAL_MS)
                }
            },
            (TurnPhase::Asking, TurnEvent::Asked { writable, config }) => {
                match self.session.prepare_update(&self.current, writable, config) {
                    Ok(Some(message)) => {
                        self.phase = TurnPhase::Sending;
                        TurnAction::Send(message)
                    },
                    Ok(None) => self.pause(IDLE_INTERVAL_MS),
                    Err(error) => self.drop_client(error),
                }
            },
            (TurnPhase::Sending, TurnEvent::Sent) => {
                let mut data: Option<Vec<u8>> = None;
                std::mem::swap(&mut data, &mut self.current);
                if let Some(data) = data {
                    self.session.update_sent(data);
                }
                self.pause(UPDATE_INTERVAL_MS)
            },
            (TurnPhase::Sending, TurnEvent::SendFailed) => self.drop_client(VncError::BrokenPipe),
            _ => TurnAction::Nothing,
        }
    }
}

/// A turn looks at the input before it looks at the framebuffer, and looks at the framebuffer
/// only for a client that has asked for an update.
pub proof fn input_comes_first(served: Served, event: TurnInput)
    ensures
        ({
            let (next, output) = served.stepped(event);
            &&& output is Capture ==> served.phase is Polling || served.phase is Forwarding
            &&& output is Capture ==> next.session.state.framebuffer_request is Some
            &&& output is Send ==> served.phase is Asking && served.session.update_due(served.current)
            &&& output is Drop ==> next.phase is Over
        }),
{
}

/// One request gets one update: with the update sent the request is gone, and the framebuffer
/// that was sent is remembered.
pub proof fn a_request_gets_one_update(served: Served, data: Seq<u8>)
    requires
        served.phase is Sending,
        served.current == Some(data),
    ensures
        ({
            let (next, output) = served.stepped(TurnInput::Sent);
            &&& output == TurnOutput::Pause(UPDATE_INTERVAL_MS)
            &&& next.session.state.framebuffer_request is None
            &&& next.session.last_data == Some(data)
            &&& next.phase is Idle
            &&& !next.session.update_due(Some(data))
        }),
{
}

/// No update is sent before the client asks for one, and none twice for one request.
pub proof fn updates_answer_requests(session: Session, current: Option<Seq<u8>>)
    ensures
        session.state.framebuffer_request is None ==> !session.update_due(current),
        current is None ==> !session.update_due(current),
{
}

/// An incremental request is not answered while the framebuffer stays as it was sent.
pub proof fn an_unchanged_framebuffer_is_not_resent(session: Session, data: Seq<u8>)
    requires
        session.last_data == Some(data),
        session.state.framebuffer_request == Some(
            (crate::vnc::FramebufferUpdateRequest { incremental: true }),
        ),
    ensures
        !session.update_due(Some(data)),
{
}

/// A server that was stopped leaves at its next step, and serves no further client.
pub proof fn a_stopped_server_exits(server: Serving, surface_initialized: bool)
    requires
        !server.running,
    ensures
        server_step(server, ServerEvent::Step { surface_initialized }) == (
            server,
            ServerAction::Exit,
        ),
{
}

/// A client that has asked for an update gets one as soon as the framebuffer has changed since the
/// last, and at once where it has asked for all of it or got none yet.
pub proof fn a_changed_framebuffer_is_sent(session: Session, data: Seq<u8>)
    requires
        session.state.framebuffer_request is Some,
    ensures
        session.last_data is None ==> session.update_due(Some(data)),
        (session.last_data matches Some(last) && last != data) ==> session.update_due(Some(data)),
        !(session.state.framebuffer_request->0).incremental ==> session.update_due(Some(data)),
{
}

} // verus!
