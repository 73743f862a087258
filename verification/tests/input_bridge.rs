use hvdevices::input_bridge::{Bridge, BridgeAction, BridgeEvent, INPUT_WAIT_MS, RECONNECT_NANOS};
use hvdevices::input_protocol::InputEvent;
use hvdevices::vnc::VncInputEvent;

const RELEASE: BridgeAction = BridgeAction::Send(InputEvent::ReleaseAll);

fn turn(now: u64, stopped: bool) -> BridgeEvent {
    BridgeEvent::Turn { now, stopped }
}

fn key(down: bool) -> BridgeEvent {
    BridgeEvent::Input(VncInputEvent::Keyboard { key: 0x61, down })
}

fn connected(now: u64) -> Bridge {
    let mut bridge = Bridge::new(now);
    assert_eq!(bridge.bridge_step(turn(now, false)), BridgeAction::Connect);
    assert_eq!(bridge.bridge_step(BridgeEvent::Connected), RELEASE);
    assert_eq!(
        bridge.bridge_step(BridgeEvent::Sent { now }),
        BridgeAction::Receive(INPUT_WAIT_MS)
    );
    bridge
}

#[test]
fn a_connection_is_told_to_release_first() {
    let mut bridge = connected(7);
    assert_eq!(
        bridge.bridge_step(key(true)),
        BridgeAction::Send(InputEvent::Key {
            usage: 4,
            pressed: true
        })
    );
    assert_eq!(
        bridge.bridge_step(BridgeEvent::Sent { now: 8 }),
        BridgeAction::Turn
    );
    assert_eq!(
        bridge.bridge_step(turn(9, false)),
        BridgeAction::Receive(50)
    );
    assert_eq!(bridge.bridge_step(BridgeEvent::Quiet), BridgeAction::Turn);
}

#[test]
fn failed_attempts_are_a_quarter_second_apart() {
    let mut bridge = Bridge::new(0);
    assert_eq!(bridge.bridge_step(turn(0, false)), BridgeAction::Connect);
    assert_eq!(
        bridge.bridge_step(BridgeEvent::ConnectFailed { now: 10 }),
        BridgeAction::Receive(50)
    );
    assert_eq!(bridge.bridge_step(BridgeEvent::Quiet), BridgeAction::Turn);
    assert_eq!(
        bridge.bridge_step(turn(9 + RECONNECT_NANOS, false)),
        BridgeAction::Receive(50)
    );
    assert_eq!(bridge.bridge_step(BridgeEvent::Quiet), BridgeAction::Turn);
    assert_eq!(
        bridge.bridge_step(turn(250_000_010, false)),
        BridgeAction::Connect
    );
    assert_eq!(bridge.bridge_step(BridgeEvent::Connected), RELEASE);
    assert_eq!(
        bridge.bridge_step(BridgeEvent::SendFailed { now: 1_000_000_000 }),
        BridgeAction::Receive(50)
    );
    assert_eq!(bridge.bridge_step(key(true)), BridgeAction::Turn);
    assert_eq!(
        bridge.bridge_step(turn(1_249_999_999, false)),
        BridgeAction::Receive(50)
    );
}

#[test]
fn a_lost_connection_is_made_again_at_once() {
    let mut bridge = connected(0);
    let move_to = |x| BridgeEvent::Input(VncInputEvent::PointerPosition { x, y: 0 });
    assert_eq!(bridge.bridge_step(move_to(0)), BridgeAction::Turn);
    let first = bridge.bridge_step(move_to(40_000));
    assert!(matches!(
        first,
        BridgeAction::Send(InputEvent::Mouse { dx: 32_767, .. })
    ));
    let second = bridge.bridge_step(BridgeEvent::Sent { now: 4 });
    assert!(matches!(
        second,
        BridgeAction::Send(InputEvent::Mouse { dx: 7_233, .. })
    ));
    assert_eq!(
        bridge.bridge_step(BridgeEvent::SendFailed { now: 5 }),
        BridgeAction::Turn
    );
    assert_eq!(bridge.bridge_step(turn(5, false)), BridgeAction::Connect);
    assert_eq!(bridge.bridge_step(BridgeEvent::Connected), RELEASE);
    assert_eq!(
        bridge.bridge_step(BridgeEvent::Sent { now: 6 }),
        BridgeAction::Receive(50)
    );
    assert_eq!(bridge.bridge_step(move_to(9)), BridgeAction::Turn);
}

#[test]
fn the_end_releases_the_input() {
    let mut bridge = connected(0);
    assert_eq!(bridge.bridge_step(BridgeEvent::Quiet), BridgeAction::Turn);
    assert_eq!(bridge.bridge_step(turn(1, true)), RELEASE);
    assert_eq!(
        bridge.bridge_step(BridgeEvent::SendFailed { now: 2 }),
        BridgeAction::Exit
    );

    let mut bridge = connected(0);
    assert_eq!(bridge.bridge_step(BridgeEvent::SourceGone), RELEASE);
    assert_eq!(
        bridge.bridge_step(BridgeEvent::Sent { now: 2 }),
        BridgeAction::Exit
    );

    let mut bridge = Bridge::new(0);
    assert_eq!(bridge.bridge_step(turn(0, true)), BridgeAction::Exit);
}
