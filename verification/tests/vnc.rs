use std::collections::VecDeque;

use hvdevices::framebuffer::RamfbConfig;
use hvdevices::vnc::{
    check_client_input, client_init, client_message_size, drain_client_input, handle_client_message, handshake,
    handshake_greeting, is_writable_format, scale_color, security, security_offer, send_framebuffer_update, server_init,
    variable_message_size, write_pixels, xrgb8888_format, ClientState, PixelFormat, SocketRead,
    VncError, VncInputEvent,
};
use hvdevices::vnc_server::{
    check_poll, describe_desktop, pause_after_turn, ClientSession, ServerAction, ServerEvent,
    ClientTurns, StartAction, StartEvent, StartPhase, TurnAction, TurnEvent, VncListenerType, VncServer, VncServerConfig,
};

#[test]
fn test_rfb38_handshake() {
    let written = handshake_greeting();
    let result = handshake(b"RFB 003.008\n");
    assert!(result.is_ok(), "handshake should succeed for RFB 3.8");
    assert!(result.unwrap(), "should negotiate RFB 3.8");
    assert!(written.starts_with(b"RFB 003.008\n"));
}

#[test]
fn test_rfb33_handshake() {
    let result = handshake(b"RFB 003.003\n");
    assert!(result.is_ok());
    assert!(!result.unwrap(), "should fall back to RFB 3.3");
}

#[test]
fn test_rfb38_security_noauth() {
    let mut w = security_offer(true);
    security(&mut w, true, 1).expect("security should succeed for type 1 (None)");
    assert_eq!(&w[0..1], &[1]); // count=1
    assert_eq!(&w[1..2], &[1]); // type=None (1 byte in RFB 3.8)
    assert_eq!(&w[2..6], &[0, 0, 0, 0]); // OK (4-byte result)
}

#[test]
fn test_full_rfb38_handshake() {
    let mut w = handshake_greeting();
    let use_rfb38 = handshake(b"RFB 003.008\n").expect("handshake failed");
    assert!(use_rfb38);

    w.extend(security_offer(use_rfb38));
    security(&mut w, use_rfb38, 1).expect("security failed");

    let screen = RamfbConfig {
        width: 800,
        height: 600,
        stride: 3200,
        ..config()
    };
    w.extend(describe_desktop(Some(screen)).expect("server_init failed"));

    client_init(&[1]).expect("client_init failed");

    assert!(w.starts_with(b"RFB 003.008\n"));
    // Security types start at offset 12 (after "RFB 003.008\n")
    assert_eq!(&w[12..13], &[1]); // count=1
    assert_eq!(&w[13..14], &[1]); // type=None
    assert_eq!(&w[14..18], &[0, 0, 0, 0]); // OK
    // Server init starts at offset 18
    assert_eq!(&w[18..20], &(800u16).to_be_bytes());
    assert_eq!(&w[20..22], &(600u16).to_be_bytes());
}

#[test]
fn test_fragmented_key_event_is_retained() {
    let mut events = Vec::new();
    let mut reads = VecDeque::from([SocketRead::Data(vec![4, 1, 0, 0, 0, 0])]);
    let mut input_buffer = Vec::new();
    let mut client_state = ClientState::default();

    check_client_input(&mut reads, &mut events, &mut input_buffer, &mut client_state).unwrap();
    assert!(events.is_empty());
    assert_eq!(input_buffer, vec![4, 1, 0, 0, 0, 0]);

    reads.push_back(SocketRead::Data(vec![0, 0x66])); // X11 keysym 'f'
    check_client_input(&mut reads, &mut events, &mut input_buffer, &mut client_state).unwrap();

    assert!(matches!(
        events.remove(0),
        VncInputEvent::Keyboard {
            key: 0x66,
            down: true,
        }
    ));
    assert!(input_buffer.is_empty());
}

#[test]
fn test_set_encodings_does_not_consume_following_key_event() {
    let mut events = Vec::new();
    let mut client_state = ClientState::default();
    let mut input_buffer = vec![
        2, 0, 0, 1, 0, 0, 0, 0, // SetEncodings with one Raw encoding.
        4, 1, 0, 0, 0, 0, 0, 0x66, // KeyEvent for 'f'.
    ];

    drain_client_input(&mut input_buffer, &mut events, &mut client_state).unwrap();

    assert!(matches!(
        events.remove(0),
        VncInputEvent::Keyboard {
            key: 0x66,
            down: true,
        }
    ));
    assert!(input_buffer.is_empty());
}

#[test]
fn test_set_pixel_format_is_twenty_bytes() {
    let mut events = Vec::new();
    let mut client_state = ClientState::default();
    let mut input_buffer = vec![
        // SetPixelFormat selecting little-endian RGB565.
        0, 0, 0, 0, 16, 16, 0, 1, 0, 31, 0, 63, 0, 31, 11, 5, 0, 0, 0, 0,
        // SetEncodings with one Raw encoding.
        2, 0, 0, 1, 0, 0, 0, 0, // KeyEvent for 'f'.
        4, 1, 0, 0, 0, 0, 0, 0x66,
    ];

    drain_client_input(&mut input_buffer, &mut events, &mut client_state).unwrap();

    assert_eq!(client_state.pixel_format.bits_per_pixel, 16);
    assert_eq!(client_state.pixel_format.red_shift, 11);
    assert!(matches!(
        events.remove(0),
        VncInputEvent::Keyboard {
            key: 0x66,
            down: true,
        }
    ));
    assert!(input_buffer.is_empty());
}

fn rgb565() -> PixelFormat {
    PixelFormat {
        bits_per_pixel: 16,
        depth: 16,
        big_endian: false,
        red_max: 31,
        green_max: 63,
        blue_max: 31,
        red_shift: 11,
        green_shift: 5,
        blue_shift: 0,
    }
}

#[test]
fn test_rgb565_conversion() {
    let format = PixelFormat {
        bits_per_pixel: 16,
        depth: 16,
        big_endian: false,
        red_max: 31,
        green_max: 63,
        blue_max: 31,
        red_shift: 11,
        green_shift: 5,
        blue_shift: 0,
    };
    let mut output = Vec::new();

    // Source pixels are blue, green, and red byte order (XRGB8888).
    write_pixels(
        &mut output,
        &[0, 0, 255, 0, 0, 255, 0, 0, 255, 0, 0, 0],
        format,
    );

    assert_eq!(output, [0x00, 0xf8, 0xe0, 0x07, 0x1f, 0x00]);
}

#[test]
fn test_pointer_sends_only_changed_buttons() {
    let mut events = Vec::new();
    let mut client_state = ClientState::default();

    handle_client_message(&[5, 0, 0, 10, 0, 20], &mut events, &mut client_state).unwrap();
    assert!(matches!(
        events.remove(0),
        VncInputEvent::PointerPosition { x: 10, y: 20 }
    ));
    assert!(events.is_empty());

    handle_client_message(&[5, 1, 0, 11, 0, 21], &mut events, &mut client_state).unwrap();
    assert!(matches!(
        events.remove(0),
        VncInputEvent::MouseButton {
            button: 0,
            down: true,
        }
    ));
    assert!(matches!(
        events.remove(0),
        VncInputEvent::PointerPosition { x: 11, y: 21 }
    ));
    assert!(events.is_empty());
}

#[test]
fn versions_and_security_types_are_checked() {
    assert_eq!(
        handshake(b"RFB 003.007\n"),
        Err(VncError::UnsupportedVersion)
    );
    let mut written = Vec::new();
    assert_eq!(
        security(&mut written, true, 2),
        Err(VncError::InvalidSecurityType)
    );
    assert_eq!(written, b"\0\0\0\x01Invalid security type");
    let mut written = security_offer(false);
    assert_eq!(
        security(&mut written, false, 1),
        Err(VncError::AuthenticationNotSupported)
    );
    assert_eq!(written, [0, 0, 0, 1]);
}

#[test]
fn pixel_formats_are_checked() {
    let mut message = [
        0, 0, 0, 0, 16, 16, 0, 1, 0, 31, 0, 63, 0, 31, 11, 5, 0, 0, 0, 0,
    ];
    assert_eq!(PixelFormat::from_set_pixel_format(&message), Ok(rgb565()));
    message[7] = 0;
    assert_eq!(
        PixelFormat::from_set_pixel_format(&message),
        Err(VncError::ColorMapNotSupported)
    );
    message[7] = 1;
    message[4] = 15;
    assert_eq!(
        PixelFormat::from_set_pixel_format(&message),
        Err(VncError::InvalidPixelFormat)
    );
    message[4] = 16;
    message[15] = 6;
    assert_eq!(
        PixelFormat::from_set_pixel_format(&message),
        Err(VncError::PixelFieldsConflict)
    );
    message[15] = 5;
    message[14] = 12;
    assert_eq!(
        PixelFormat::from_set_pixel_format(&message),
        Err(VncError::PixelFieldsConflict)
    );
    assert_eq!(rgb565().bytes_per_pixel(), 2);
    assert_eq!(xrgb8888_format().bytes_per_pixel(), 4);
}

#[test]
fn colors_are_rounded_to_their_maximum() {
    assert_eq!(scale_color(0, 31), 0);
    assert_eq!(scale_color(255, 31), 31);
    assert_eq!(scale_color(128, 31), 16);
    assert_eq!(scale_color(4, 31), 0);
    assert_eq!(scale_color(5, 31), 1);
}

#[test]
fn message_sizes_are_bounded() {
    assert_eq!(variable_message_size(4, 3, 4), Ok(16));
    assert_eq!(
        variable_message_size(8, 16 * 1024 * 1024, 1),
        Err(VncError::MessageTooLarge)
    );
    assert_eq!(client_message_size(&[]), Ok(None));
    assert_eq!(client_message_size(&[2, 0, 0]), Ok(None));
    assert_eq!(client_message_size(&[2, 0, 1, 0]), Ok(Some(1028)));
    assert_eq!(client_message_size(&[1, 0, 0, 0, 0, 2]), Ok(Some(18)));
    assert_eq!(client_message_size(&[9, 0, 0, 0, 1]), Ok(Some(11)));
    assert_eq!(client_message_size(&[0xff]), Ok(Some(13)));
    assert_eq!(
        client_message_size(&[6, 0, 0, 0, 0xff, 0, 0, 0]),
        Err(VncError::MessageTooLarge)
    );
    assert_eq!(
        client_message_size(&[7]),
        Err(VncError::UnsupportedMessage(7))
    );
}

#[test]
fn updates_carry_the_visible_part_of_each_row() {
    let data = [1, 2, 3, 4, 9, 9, 9, 9, 5, 6, 7, 8, 9, 9, 9, 9];
    let mut message = Vec::new();
    send_framebuffer_update(&mut message, &data, 1, 2, 8, xrgb8888_format()).unwrap();
    assert_eq!(
        message,
        [0, 0, 0, 1, 0, 0, 0, 0, 0, 1, 0, 2, 0, 0, 0, 0, 1, 2, 3, 4, 5, 6, 7, 8]
    );
    let mut message = Vec::new();
    assert_eq!(
        send_framebuffer_update(&mut message, &data, 1, 3, 8, xrgb8888_format()),
        Err(VncError::ShortFramebuffer)
    );
    assert_eq!(
        send_framebuffer_update(&mut message, &data, 3, 1, 8, xrgb8888_format()),
        Err(VncError::ShortFramebuffer)
    );
    assert_eq!(
        send_framebuffer_update(&mut message, &data, 0x4000_0000, 1, 8, xrgb8888_format()),
        Err(VncError::WidthOverflow)
    );
    assert_eq!(
        send_framebuffer_update(&mut message, &data, 1, 0x4000_0000, 8, xrgb8888_format()),
        Err(VncError::SizeOverflow)
    );
    assert!(message.is_empty());
}

#[test]
fn reads_end_with_the_connection() {
    let mut events = Vec::new();
    let mut input = Vec::new();
    let mut state = ClientState::default();
    let mut reads = VecDeque::from([SocketRead::Interrupted, SocketRead::Data(Vec::new())]);
    assert_eq!(
        check_client_input(&mut reads, &mut events, &mut input, &mut state),
        Err(VncError::Disconnected)
    );
    let mut reads = VecDeque::from([SocketRead::Failed]);
    assert_eq!(
        check_client_input(&mut reads, &mut events, &mut input, &mut state),
        Err(VncError::ReadFailed)
    );
    let mut reads = VecDeque::from([SocketRead::Data(vec![6; 16 * 1024 * 1024 + 1])]);
    assert_eq!(
        check_client_input(&mut reads, &mut events, &mut input, &mut state),
        Err(VncError::InputTooLarge)
    );
}

#[test]
fn fragments_make_the_same_events() {
    let messages = [
        3, 1, 0, 0, 0, 0, 0, 1, 0, 1, // An incremental update request.
        0xff, 0, 0, 1, 0, 0, 0, 0x61, 0, 0, 0, 30, // An extended key event,
        0, // which has one more byte.
        5, 9, 0, 1, 0, 2, // Two buttons at a position.
    ];
    let mut whole = Vec::new();
    let mut whole_state = ClientState::default();
    let mut input = messages.to_vec();
    drain_client_input(&mut input, &mut whole, &mut whole_state).unwrap();

    let mut pieces = Vec::new();
    let mut state = ClientState::default();
    let mut input = Vec::new();
    for byte in messages {
        input.push(byte);
        drain_client_input(&mut input, &mut pieces, &mut state).unwrap();
    }
    assert_eq!(pieces, whole);
    assert_eq!(state, whole_state);
    assert_eq!(
        whole,
        [
            VncInputEvent::Keyboard {
                key: 0x61,
                down: true
            },
            VncInputEvent::MouseButton {
                button: 0,
                down: true
            },
            VncInputEvent::MouseButton {
                button: 3,
                down: true
            },
            VncInputEvent::PointerPosition { x: 1, y: 2 },
        ]
    );
}

fn config() -> RamfbConfig {
    RamfbConfig {
        address: 0,
        fourcc: 0x3432_5258,
        flags: 0,
        width: 1,
        height: 1,
        stride: 4,
    }
}

#[test]
fn a_session_answers_requests() {
    let mut session = ClientSession::new();
    let mut events = Vec::new();
    let pixels = Some(vec![1, 2, 3, 4]);
    assert!(!session.update_due(&pixels));
    assert_eq!(
        session.absorb(SocketRead::Data(vec![3, 1, 0, 0, 0, 0, 0, 1, 0, 1])),
        Ok(true)
    );
    assert_eq!(session.absorb(SocketRead::WouldBlock), Ok(false));
    session.drain(&mut events).unwrap();
    assert!(session.update_due(&pixels));
    assert_eq!(
        session.prepare_update(&pixels, false, Some(config())),
        Ok(None)
    );
    assert_eq!(
        session.prepare_update(&pixels, true, None),
        Err(VncError::FramebufferUnavailable)
    );
    let update = session
        .prepare_update(&pixels, true, Some(config()))
        .unwrap()
        .unwrap();
    assert_eq!(update[16..], [1, 2, 3, 4]);
    session.update_sent(vec![1, 2, 3, 4]);
    assert!(!session.update_due(&pixels));

    session
        .absorb(SocketRead::Data(vec![3, 1, 0, 0, 0, 0, 0, 1, 0, 1]))
        .unwrap();
    session.drain(&mut events).unwrap();
    assert!(!session.update_due(&pixels));
    assert!(session.update_due(&Some(vec![1, 2, 3, 5])));
}

#[test]
fn polls_and_pauses() {
    assert_eq!(check_poll(true, false, true), Ok(true));
    assert_eq!(check_poll(false, false, true), Ok(false));
    assert_eq!(
        check_poll(true, true, true),
        Err(VncError::ConnectionReset)
    );
    assert_eq!(pause_after_turn(true), 40);
    assert_eq!(pause_after_turn(false), 100);
    assert_eq!(
        describe_desktop(None),
        Err(VncError::FramebufferUnavailable)
    );
    assert_eq!(client_init(&[]), Err(VncError::Disconnected));
    let desktop = describe_desktop(Some(config())).unwrap();
    let mut message = Vec::new();
    server_init(&mut message, 1, 1);
    assert_eq!(message, desktop);
    assert_eq!(desktop[..4], [0, 1, 0, 1]);
    assert_eq!(desktop[24..], *b"Cloud Hypervisor");
}

#[test]
fn a_server_serves_one_client_after_the_other() {
    let mut server = VncServer::new(VncServerConfig {
        listener: VncListenerType::Tcp { port: 5900 },
    });
    server.set_on_disconnect();
    assert_eq!(
        server.next(ServerEvent::Step {
            surface_initialized: true
        }),
        ServerAction::Exit
    );
    server.start();
    assert_eq!(
        server.next(ServerEvent::Step {
            surface_initialized: false
        }),
        ServerAction::Wait(100)
    );
    assert_eq!(
        server.next(ServerEvent::Step {
            surface_initialized: true
        }),
        ServerAction::Accept
    );
    assert_eq!(server.next(ServerEvent::NoClient), ServerAction::Wait(100));
    assert_eq!(server.next(ServerEvent::Connected), ServerAction::Serve);
    assert_eq!(
        server.next(ServerEvent::ClientDone),
        ServerAction::ReleaseInput { notify: true }
    );
    server.stop();
    assert_eq!(
        server.next(ServerEvent::Step {
            surface_initialized: true
        }),
        ServerAction::Exit
    );
}

fn sent(action: StartAction) -> Vec<u8> {
    match action {
        StartAction::Send(bytes) => bytes,
        _ => panic!("nothing to send"),
    }
}

fn started(version: &[u8]) -> (StartPhase, StartAction) {
    let mut phase = StartPhase::Begin;
    assert_eq!(sent(phase.start_step(StartEvent::Begin)), *b"RFB 003.008\n");
    assert!(matches!(
        phase.start_step(StartEvent::Sent),
        StartAction::Read(12)
    ));
    let action = phase.start_step(StartEvent::Received(version.to_vec()));
    (phase, action)
}

#[test]
fn a_session_starts_step_by_step() {
    let (mut phase, action) = started(b"RFB 003.008\n");
    assert_eq!(sent(action), [1, 1]);
    assert!(matches!(
        phase.start_step(StartEvent::Sent),
        StartAction::Read(1)
    ));
    assert_eq!(
        sent(phase.start_step(StartEvent::Received(vec![1]))),
        [0, 0, 0, 0]
    );
    assert!(matches!(
        phase.start_step(StartEvent::Sent),
        StartAction::Look
    ));
    let description = sent(phase.start_step(StartEvent::Desktop(Some(config()))));
    assert_eq!(description[description.len() - 16..], *b"Cloud Hypervisor");
    assert!(matches!(
        phase.start_step(StartEvent::Sent),
        StartAction::Read(1)
    ));
    assert!(matches!(
        phase.start_step(StartEvent::Received(vec![0])),
        StartAction::Ready
    ));
    assert!(matches!(
        phase.start_step(StartEvent::Sent),
        StartAction::Nothing
    ));
}

#[test]
fn a_session_that_cannot_start_is_dropped() {
    let (_, action) = started(b"RFB 004.000\n");
    assert!(matches!(
        action,
        StartAction::Drop(VncError::UnsupportedVersion)
    ));

    let (mut phase, _) = started(b"RFB 003.008\n");
    phase.start_step(StartEvent::Sent);
    assert_eq!(
        sent(phase.start_step(StartEvent::Received(vec![2])))[4..],
        *b"Invalid security type"
    );
    assert!(matches!(
        phase.start_step(StartEvent::Sent),
        StartAction::Drop(VncError::InvalidSecurityType)
    ));

    let (mut phase, action) = started(b"RFB 003.003\n");
    assert_eq!(sent(action), [0, 0, 0, 1]);
    phase.start_step(StartEvent::Sent);
    assert!(sent(phase.start_step(StartEvent::Received(vec![1]))).is_empty());
    assert!(matches!(
        phase.start_step(StartEvent::Sent),
        StartAction::Drop(VncError::AuthenticationNotSupported)
    ));

    let (mut phase, _) = started(b"RFB 003.008\n");
    phase.start_step(StartEvent::Sent);
    phase.start_step(StartEvent::Received(vec![1]));
    phase.start_step(StartEvent::Sent);
    assert!(matches!(
        phase.start_step(StartEvent::Desktop(None)),
        StartAction::Drop(VncError::FramebufferUnavailable)
    ));

    let (mut phase, _) = started(b"RFB 003.008\n");
    phase.start_step(StartEvent::Sent);
    assert!(matches!(
        phase.start_step(StartEvent::Received(Vec::new())),
        StartAction::Drop(VncError::Disconnected)
    ));
}

fn polled(polled: bool, broken: bool, readable: bool) -> TurnEvent {
    TurnEvent::Polled {
        polled,
        broken,
        readable,
    }
}

fn asked(turns: &mut ClientTurns, message: &[u8]) -> TurnAction {
    let turn = TurnEvent::Turn { running: true };
    assert!(matches!(turns.turn_step(turn), TurnAction::Poll));
    assert!(matches!(
        turns.turn_step(polled(true, false, true)),
        TurnAction::Read
    ));
    assert!(matches!(
        turns.turn_step(TurnEvent::Read(SocketRead::Data(message.to_vec()))),
        TurnAction::Read
    ));
    let action = turns.turn_step(TurnEvent::Read(SocketRead::WouldBlock));
    assert!(matches!(action, TurnAction::Forward(_)));
    turns.turn_step(TurnEvent::Forwarded)
}

const REQUEST: [u8; 10] = [3, 1, 0, 0, 0, 0, 0, 1, 0, 1];

#[test]
fn a_turn_takes_input_and_sends_an_update() {
    let mut turns = ClientTurns::new();
    assert!(matches!(asked(&mut turns, &REQUEST), TurnAction::Capture));
    let pixels = Some(vec![1, 2, 3, 4]);
    assert!(matches!(
        turns.turn_step(TurnEvent::Captured(pixels.clone())),
        TurnAction::Ask
    ));
    let TurnAction::Send(update) = turns.turn_step(TurnEvent::Asked {
        writable: true,
        config: Some(config()),
    }) else {
        panic!("no update");
    };
    assert_eq!(update[16..], [1, 2, 3, 4]);
    assert!(matches!(
        turns.turn_step(TurnEvent::Sent),
        TurnAction::Pause(40)
    ));
    assert_eq!(turns.session.last_data, pixels);

    assert!(matches!(
        turns.turn_step(TurnEvent::Turn { running: true }),
        TurnAction::Poll
    ));
    assert!(matches!(
        turns.turn_step(polled(false, false, false)),
        TurnAction::Pause(100)
    ));
    assert!(matches!(asked(&mut turns, &REQUEST), TurnAction::Capture));
    assert!(matches!(
        turns.turn_step(TurnEvent::Captured(pixels)),
        TurnAction::Pause(100)
    ));
    assert!(matches!(
        turns.turn_step(TurnEvent::Turn { running: false }),
        TurnAction::Close
    ));
    assert!(matches!(
        turns.turn_step(TurnEvent::Turn { running: true }),
        TurnAction::Nothing
    ));
}

#[test]
fn a_turn_waits_for_room_and_drops_broken_clients() {
    let mut turns = ClientTurns::new();
    asked(&mut turns, &REQUEST);
    turns.turn_step(TurnEvent::Captured(Some(vec![1, 2, 3, 4])));
    assert!(matches!(
        turns.turn_step(TurnEvent::Asked {
            writable: false,
            config: Some(config()),
        }),
        TurnAction::Pause(100)
    ));
    assert!(turns.session.state.framebuffer_request.is_some());

    assert!(matches!(asked(&mut turns, &REQUEST), TurnAction::Capture));
    turns.turn_step(TurnEvent::Captured(Some(vec![1, 2, 3, 4])));
    turns.turn_step(TurnEvent::Asked {
        writable: true,
        config: Some(config()),
    });
    assert!(matches!(
        turns.turn_step(TurnEvent::SendFailed),
        TurnAction::Drop(VncError::BrokenPipe)
    ));

    let mut turns = ClientTurns::new();
    turns.turn_step(TurnEvent::Turn { running: true });
    assert!(matches!(
        turns.turn_step(polled(true, true, true)),
        TurnAction::Drop(VncError::ConnectionReset)
    ));

    let mut turns = ClientTurns::new();
    turns.turn_step(TurnEvent::Turn { running: true });
    turns.turn_step(polled(true, false, true));
    assert!(matches!(
        turns.turn_step(TurnEvent::Read(SocketRead::Data(Vec::new()))),
        TurnAction::Drop(VncError::Disconnected)
    ));

    let mut turns = ClientTurns::new();
    assert!(matches!(
        asked(&mut turns, &[4, 1, 0, 0, 0, 0, 0, 0x61, 99]),
        TurnAction::Drop(_)
    ));
}

fn shifted_out() -> PixelFormat {
    PixelFormat {
        red_max: 0x8000,
        red_shift: 49,
        ..rgb565()
    }
}

#[test]
fn a_field_may_be_shifted_out_of_the_pixel() {
    let mut message = [
        0, 0, 0, 0, 16, 16, 0, 1, 0x80, 0, 0, 63, 0, 31, 49, 5, 0, 0, 0, 0,
    ];
    assert_eq!(
        PixelFormat::from_set_pixel_format(&message),
        Ok(shifted_out())
    );
    for shift in [48, 64, 255] {
        message[14] = shift;
        assert_eq!(
            PixelFormat::from_set_pixel_format(&message),
            Err(VncError::PixelFieldsConflict)
        );
    }
    message[14] = 63;
    message[9] = 2;
    assert!(PixelFormat::from_set_pixel_format(&message).is_ok());
    message[9] = 1;
    assert_eq!(
        PixelFormat::from_set_pixel_format(&message),
        Err(VncError::PixelFieldsConflict)
    );
}

#[test]
fn a_client_with_a_field_out_of_the_pixel_gets_no_pixels() {
    assert!(is_writable_format(rgb565()));
    assert!(!is_writable_format(shifted_out()));
    let mut session = ClientSession::new();
    session.input_buffer = vec![3, 0, 0, 0, 0, 0, 0, 1, 0, 1];
    session.drain(&mut Vec::new()).unwrap();
    session.state.pixel_format = shifted_out();
    let pixels = Some(vec![0; 1024]);
    assert_eq!(
        session.prepare_update(&pixels, true, Some(config())),
        Err(VncError::PixelFieldsConflict)
    );
    let empty = RamfbConfig {
        width: 0,
        ..config()
    };
    assert_eq!(
        session
            .prepare_update(&pixels, true, Some(empty))
            .unwrap()
            .unwrap()
            .len(),
        16
    );
    let wide = RamfbConfig {
        width: u32::MAX,
        ..config()
    };
    assert_eq!(
        session.prepare_update(&pixels, true, Some(wide)),
        Err(VncError::BrokenPipe)
    );
    let mut written = Vec::new();
    write_pixels(&mut written, &[1, 2, 3], shifted_out());
    assert!(written.is_empty());
}
