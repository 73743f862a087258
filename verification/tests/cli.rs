use hvdevices::cli::{
    choose_stride, framebuffer_unreachable, parse_format, parse_u64, parse_vnc_listener,
    ListenerError, NumberError,
};
use hvdevices::framebuffer::DRM_FORMAT_XRGB8888;
use hvdevices::vnc_server::VncListenerType;

#[test]
fn parses_numeric_arguments() {
    assert_eq!(parse_u64("0xBEB00000").unwrap(), 0xbeb0_0000);
    assert_eq!(parse_u64("4096").unwrap(), 4096);
    assert_eq!(parse_format("bgrx8888").unwrap(), DRM_FORMAT_XRGB8888);
}

#[test]
fn parses_vnc_listeners() {
    assert!(matches!(
        parse_vnc_listener("tcp:5900").unwrap(),
        VncListenerType::Tcp { port: 5900 }
    ));
    assert!(matches!(
        parse_vnc_listener("0.0.0.0:5901").unwrap(),
        VncListenerType::Tcp { port: 5901 }
    ));
    assert!(matches!(
        parse_vnc_listener("unix:/tmp/vnc.sock").unwrap(),
        VncListenerType::Unix { .. }
    ));
}

#[test]
fn numbers_are_checked() {
    assert_eq!(parse_u64(""), Err(NumberError::Empty));
    assert_eq!(parse_u64("0x"), Err(NumberError::Empty));
    assert_eq!(parse_u64("12a"), Err(NumberError::InvalidDigit));
    assert_eq!(parse_u64("0x10000000000000000"), Err(NumberError::Overflow));
    assert_eq!(parse_u64("18446744073709551615"), Ok(u64::MAX));
    assert_eq!(parse_u64("18446744073709551616"), Err(NumberError::Overflow));
    assert_eq!(parse_u64("+7"), Ok(7));
    assert_eq!(parse_format("XRGB8888"), Ok(DRM_FORMAT_XRGB8888));
    assert_eq!(parse_format("rgb565"), Err(()));
}

#[test]
fn listeners_are_checked() {
    assert!(matches!(
        parse_vnc_listener("unix:"),
        Err(ListenerError::EmptyPath)
    ));
    assert!(matches!(
        parse_vnc_listener("tcp:70000"),
        Err(ListenerError::InvalidPort(NumberError::Overflow))
    ));
    assert!(matches!(
        parse_vnc_listener("localhost"),
        Err(ListenerError::InvalidPort(NumberError::InvalidDigit))
    ));
    let VncListenerType::Unix { path } = parse_vnc_listener("unix:/tmp/vnc.sock").unwrap() else {
        panic!("not a socket path");
    };
    assert_eq!(path, "/tmp/vnc.sock");
}

#[test]
fn strides_default_to_the_width() {
    assert_eq!(choose_stride(1024, None), Some(4096));
    assert_eq!(choose_stride(1024, Some(8192)), Some(8192));
    assert_eq!(choose_stride(0x4000_0000, None), None);
}

#[test]
fn a_framebuffer_outside_of_all_mappings_is_given_up() {
    assert!(framebuffer_unreachable(true, false, 1));
    assert!(!framebuffer_unreachable(false, false, 1));
    assert!(!framebuffer_unreachable(true, true, 1));
    assert!(!framebuffer_unreachable(true, false, 0));
}
