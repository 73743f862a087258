use hvdevices::input_protocol::InputEvent;
use hvdevices::vnc::VncInputEvent;
use hvdevices::vnc_input::{keysym_to_usage, mouse_event, split_motion, VncInputTranslator};

#[test]
fn maps_common_keysyms_to_hid_usages() {
    assert_eq!(keysym_to_usage('a' as u32), Some(0x04));
    assert_eq!(keysym_to_usage('Z' as u32), Some(0x1d));
    assert_eq!(keysym_to_usage(0xffe3), Some(0xe0));
    assert_eq!(keysym_to_usage(0xffe2), Some(0xe5));
    assert_eq!(keysym_to_usage(0xff52), Some(0x52));
    assert_eq!(keysym_to_usage(0xffc9), Some(0x45));
    assert_eq!(keysym_to_usage(0xffb0), Some(0x62));
    assert_eq!(keysym_to_usage(0x0101_f642), None);
}

#[test]
fn absolute_pointer_uses_a_per_client_baseline() {
    let mut translator = VncInputTranslator::default();
    assert!(
        translator
            .translate(&VncInputEvent::PointerPosition { x: 100, y: 100 })
            .is_empty()
    );
    assert_eq!(
        translator.translate(&VncInputEvent::PointerPosition { x: 125, y: 80 }),
        [mouse_event(25, -20, 0, 0)]
    );
    assert_eq!(
        translator.translate(&VncInputEvent::ReleaseAll),
        [InputEvent::ReleaseAll]
    );
    assert!(
        translator
            .translate(&VncInputEvent::PointerPosition { x: 500, y: 500 })
            .is_empty()
    );
}

#[test]
fn wheel_is_transient_and_large_motion_is_split() {
    let mut translator = VncInputTranslator::default();
    assert_eq!(
        translator.translate(&VncInputEvent::MouseButton {
            button: 3,
            down: true,
        }),
        [mouse_event(0, 0, 1, 0)]
    );
    assert!(
        translator
            .translate(&VncInputEvent::MouseButton {
                button: 3,
                down: false,
            })
            .is_empty()
    );
    let events = split_motion(40_000, -40_000, 1);
    assert_eq!(events.len(), 2);
    let (sum_x, sum_y) = events.iter().fold((0i64, 0i64), |(x, y), event| {
        if let InputEvent::Mouse { dx, dy, .. } = event {
            (x + i64::from(*dx), y + i64::from(*dy))
        } else {
            unreachable!()
        }
    });
    assert_eq!((sum_x, sum_y), (40_000, -40_000));
}

#[test]
fn rfb_middle_and_right_buttons_use_hid_bit_order() {
    let mut translator = VncInputTranslator::default();
    assert_eq!(
        translator.translate(&VncInputEvent::MouseButton {
            button: 1,
            down: true,
        }),
        [mouse_event(0, 0, 0, 4)]
    );
    assert_eq!(
        translator.translate(&VncInputEvent::MouseButton {
            button: 2,
            down: true,
        }),
        [mouse_event(0, 0, 0, 6)]
    );
}

#[test]
fn keys_without_a_usage_are_dropped() {
    let mut translator = VncInputTranslator::default();
    assert_eq!(
        translator.translate(&VncInputEvent::Keyboard {
            key: 0x61,
            down: true
        }),
        [InputEvent::Key {
            usage: 4,
            pressed: true
        }]
    );
    assert!(translator
        .translate(&VncInputEvent::Keyboard {
            key: 0x0101_f642,
            down: true
        })
        .is_empty());
    assert_eq!(
        translator.translate(&VncInputEvent::PointerMove { dx: 3, dy: -4 }),
        [mouse_event(3, -4, 0, 0)]
    );
    translator.reset();
    assert_eq!(translator, VncInputTranslator::default());
}

#[test]
fn every_printable_character_has_a_key() {
    for keysym in 0x20..=0x7e {
        assert!(keysym_to_usage(keysym).is_some());
    }
    for letter in 'A'..='Z' {
        assert_eq!(
            keysym_to_usage(letter as u32),
            keysym_to_usage(letter.to_ascii_lowercase() as u32)
        );
    }
    for (shifted, digit) in "!@#$%^&*()".chars().zip("1234567890".chars()) {
        assert_eq!(
            keysym_to_usage(shifted as u32),
            keysym_to_usage(digit as u32)
        );
    }
    assert_eq!(keysym_to_usage('!' as u32), Some(0x1e));
    assert_eq!(keysym_to_usage('(' as u32), Some(0x26));
    assert_eq!(keysym_to_usage(')' as u32), Some(0x27));
}

#[test]
fn motions_lead_to_the_last_position() {
    let mut translator = VncInputTranslator::default();
    let mut events = Vec::new();
    for (x, y) in [(500, 20), (0, 0), (100_000, 90_000), (3, 7)] {
        events.extend(translator.translate(&VncInputEvent::PointerPosition { x, y }));
        events.extend(translator.translate(&VncInputEvent::MouseButton {
            button: 0,
            down: x > 100,
        }));
        events.extend(translator.translate(&VncInputEvent::Keyboard {
            key: 'a' as u32,
            down: true,
        }));
    }
    let total = events.iter().fold((0i64, 0i64), |(x, y), event| match *event {
        InputEvent::Mouse { dx, dy, .. } => (x + i64::from(dx), y + i64::from(dy)),
        _ => (x, y),
    });
    assert_eq!(total, (3 - 500, 7 - 20));
}
