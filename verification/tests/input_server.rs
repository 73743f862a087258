use hvdevices::input_protocol::{write_event, InputEvent, InputProtocolError, ReadOutcome};
use hvdevices::input_server::{InputServer, InputServerAction, InputServerEvent};
use hvdevices::uhci::{InterruptLine, UhciController};
use hvdevices::usb_hid::apply_event;

const TURN: InputServerEvent = InputServerEvent::Turn { stopped: false };
const STOP: InputServerEvent = InputServerEvent::Turn { stopped: true };

fn record(event: InputEvent) -> Vec<u8> {
    let mut bytes = Vec::new();
    write_event(&mut bytes, event);
    bytes
}

fn data(bytes: &[u8]) -> InputServerEvent {
    InputServerEvent::Read {
        outcome: ReadOutcome::Data(bytes.to_vec()),
        timed_out: false,
    }
}

fn failed(timed_out: bool) -> InputServerEvent {
    InputServerEvent::Read {
        outcome: ReadOutcome::Failed,
        timed_out,
    }
}

fn serving() -> InputServer {
    let mut server = InputServer::new();
    assert_eq!(server.server_step(TURN), InputServerAction::Accept);
    assert_eq!(
        server.server_step(InputServerEvent::Accepted),
        InputServerAction::Prepare(100)
    );
    assert_eq!(server.server_step(TURN), InputServerAction::Read(16));
    server
}

#[test]
fn framing_and_disconnection_release_input() {
    let mut controller = UhciController::new(InterruptLine::new());
    let mut server = serving();
    let pressed = InputEvent::Key {
        usage: 4,
        pressed: true,
    };
    let bytes = record(pressed);
    assert_eq!(
        server.server_step(data(&bytes[..5])),
        InputServerAction::Read(11)
    );
    assert_eq!(
        server.server_step(InputServerEvent::Read {
            outcome: ReadOutcome::Interrupted,
            timed_out: false
        }),
        InputServerAction::Read(11)
    );
    let InputServerAction::Apply(event) = server.server_step(data(&bytes[5..])) else {
        panic!("no event");
    };
    assert_eq!(event, pressed);
    apply_event(&mut controller, event);
    assert_eq!(
        controller.take_keyboard_report().unwrap(),
        [0, 0, 4, 0, 0, 0, 0, 0]
    );
    assert_eq!(server.server_step(TURN), InputServerAction::Read(16));
    assert_eq!(
        server.server_step(data(&[])),
        InputServerAction::Release(None)
    );
    controller.release_all_input();
    assert_eq!(controller.take_keyboard_report().unwrap(), [0; 8]);
    assert_eq!(server.server_step(TURN), InputServerAction::Accept);
}

#[test]
fn a_late_read_keeps_the_client_and_its_record() {
    let mut server = serving();
    let bytes = record(InputEvent::ReleaseAll);
    assert_eq!(server.server_step(failed(true)), InputServerAction::Turn);
    assert_eq!(server.server_step(TURN), InputServerAction::Read(16));
    assert_eq!(
        server.server_step(data(&bytes[..3])),
        InputServerAction::Read(13)
    );
    assert_eq!(server.server_step(failed(true)), InputServerAction::Turn);
    assert_eq!(server.server_step(TURN), InputServerAction::Read(13));
    assert_eq!(
        server.server_step(data(&bytes[3..])),
        InputServerAction::Apply(InputEvent::ReleaseAll)
    );
    assert_eq!(server.server_step(TURN), InputServerAction::Read(16));
    assert_eq!(
        server.server_step(failed(false)),
        InputServerAction::Release(Some(InputProtocolError::ReadFailed))
    );
}

#[test]
fn broken_records_drop_the_client() {
    let mut server = serving();
    let bytes = record(InputEvent::ReleaseAll);
    assert_eq!(
        server.server_step(data(&bytes[..15])),
        InputServerAction::Read(1)
    );
    assert_eq!(
        server.server_step(data(&[])),
        InputServerAction::Release(Some(InputProtocolError::Truncated))
    );
    let mut server = serving();
    assert!(matches!(
        server.server_step(data(&[0; 16])),
        InputServerAction::Release(Some(_))
    ));
    let mut server = serving();
    assert_eq!(
        server.server_step(InputServerEvent::PrepareFailed),
        InputServerAction::Release(None)
    );
}

#[test]
fn the_server_pauses_without_a_client() {
    let mut server = InputServer::new();
    assert_eq!(
        server.server_step(InputServerEvent::NoClient),
        InputServerAction::Pause(50)
    );
    assert_eq!(
        server.server_step(InputServerEvent::AcceptFailed),
        InputServerAction::Pause(100)
    );
}

#[test]
fn a_stopped_server_releases_and_leaves() {
    let mut server = serving();
    assert_eq!(server.server_step(STOP), InputServerAction::Release(None));
    assert_eq!(server.server_step(STOP), InputServerAction::Exit);
}
