//! From X11 keysyms to the scan codes of a PS/2 keyboard with the US layout.
use vstd::prelude::*;

verus! {

/// The keysym of the same key without shift: letters have one key for both cases.
pub open spec fn unshifted(key: u32) -> u32 {
    if 0x41 <= key <= 0x5a {
        (key + 0x20) as u32
    } else {
        key
    }
}

/// The make code of a key in scan code set 1, and whether it is an extended key.
pub open spec fn set1_code(key: u32) -> Option<(u8, bool)> {
    match unshifted(key) {
        0x61 => Some((0x1e, false)),
        0x62 => Some((0x30, false)),
        0x63 => Some((0x2e, false)),
        0x64 => Some((0x20, false)),
        0x65 => Some((0x12, false)),
        0x66 => Some((0x21, false)),
        0x67 => Some((0x22, false)),
        0x68 => Some((0x23, false)),
        0x69 => Some((0x17, false)),
        0x6a => Some((0x24, false)),
        0x6b => Some((0x25, false)),
        0x6c => Some((0x26, false)),
        0x6d => Some((0x32, false)),
        0x6e => Some((0x31, false)),
        0x6f => Some((0x18, false)),
        0x70 => Some((0x19, false)),
        0x71 => Some((0x10, false)),
        0x72 => Some((0x13, false)),
        0x73 => Some((0x1f, false)),
        0x74 => Some((0x14, false)),
        0x75 => Some((0x16, false)),
        0x76 => Some((0x2f, false)),
        0x77 => Some((0x11, false)),
        0x78 => Some((0x2d, false)),
        0x79 => Some((0x15, false)),
        0x7a => Some((0x2c, false)),
        0x30 => Some((0x0b, false)),
        0x31 => Some((0x02, false)),
        0x32 => Some((0x03, false)),
        0x33 => Some((0x04, false)),
        0x34 => Some((0x05, false)),
        0x35 => Some((0x06, false)),
        0x36 => Some((0x07, false)),
        0x37 => Some((0x08, false)),
        0x38 => Some((0x09, false)),
        0x39 => Some((0x0a, false)),
        0x20 => Some((0x39, false)),
        0x21 => Some((0x02, false)),
        0x60 => Some((0x29, false)),
        0x2d => Some((0x0c, false)),
        0x3d => Some((0x0d, false)),
        0x5b => Some((0x1a, false)),
        0x5d => Some((0x1b, false)),
        0x5c => Some((0x2b, false)),
        0x3b => Some((0x27, false)),
        0x27 => Some((0x28, false)),
        0x2c => Some((0x33, false)),
        0x2e => Some((0x34, false)),
        0x2f => Some((0x35, false)),
        0xff1b => Some((0x01, false)),
        0xff09 => Some((0x0f, false)),
        0xff0d => Some((0x1c, false)),
        0xffe1 => Some((0x2a, false)),
        0xffe2 => Some((0x36, false)),
        0xffe3 => Some((0x1d, false)),
        0xffe4 => Some((0x1d, true)),
        0xffe9 => Some((0x38, false)),
        0xffea => Some((0x38, true)),
        0xffe5 => Some((0x3a, false)),
        0xff08 => Some((0x0e, false)),
        0xffff => Some((0x53, true)),
        0xff67 => Some((0x53, true)),
        0xff50 => Some((0x47, true)),
        0xff57 => Some((0x4f, true)),
        0xff55 => Some((0x49, true)),
        0xff56 => Some((0x51, true)),
        0xff52 => Some((0x48, true)),
        0xff54 => Some((0x50, true)),
        0xff51 => Some((0x4b, true)),
        0xff53 => Some((0x4d, true)),
        0xff63 => Some((0x52, true)),
        0xffbe => Some((0x3b, false)),
        0xffbf => Some((0x3c, false)),
        0xffc0 => Some((0x3d, false)),
        0xffc1 => Some((0x3e, false)),
        0xffc2 => Some((0x3f, false)),
        0xffc3 => Some((0x40, false)),
        0xffc4 => Some((0x41, false)),
        0xffc5 => Some((0x42, false)),
        0xffc6 => Some((0x43, false)),
        0xffc7 => Some((0x44, false)),
        0xffc8 => Some((0x45, false)),
        0xffc9 => Some((0x46, false)),
        0xff90 => Some((0x52, false)),
        0xff91 => Some((0x4f, false)),
        0xff92 => Some((0x50, false)),
        0xff93 => Some((0x51, false)),
        0xff94 => Some((0x4b, false)),
        0xff95 => Some((0x4c, false)),
        0xff96 => Some((0x4d, false)),
        0xff97 => Some((0x47, false)),
        0xff98 => Some((0x48, false)),
        0xff99 => Some((0x49, false)),
        0xffae => Some((0x53, false)),
        0xff8d => Some((0x1c, true)),
        0xff6b => Some((0x4e, false)),
        0xff6d => Some((0x4a, false)),
        0xff6a => Some((0x37, false)),
        0xff6f => Some((0x35, true)),
        _ => None,
    }
}

/// The set-2 make code of a key with a given set-1 make code.
pub open spec fn set2_code(set1: u8, extended: bool) -> Option<u8> {
    if extended {
        match set1 {
            0x1c => Some(0x5a),
            0x1d => Some(0x14),
            0x35 => Some(0x4a),
            0x38 => Some(0x11),
            0x47 => Some(0x6c),
            0x48 => Some(0x75),
            0x49 => Some(0x7d),
            0x4b => Some(0x6b),
            0x4d => Some(0x74),
            0x4f => Some(0x69),
            0x50 => Some(0x72),
            0x51 => Some(0x7a),
            0x52 => Some(0x70),
            0x53 => Some(0x71),
            _ => None,
        }
    } else {
        match set1 {
            0x01 => Some(0x76),
            0x02 => Some(0x16),
            0x03 => Some(0x1e),
            0x04 => Some(0x26),
            0x05 => Some(0x25),
            0x06 => Some(0x2e),
            0x07 => Some(0x36),
            0x08 => Some(0x3d),
            0x09 => Some(0x3e),
            0x0a => Some(0x46),
            0x0b => Some(0x45),
            0x0c => Some(0x4e),
            0x0d => Some(0x55),
            0x0e => Some(0x66),
            0x0f => Some(0x0d),
            0x10 => Some(0x15),
            0x11 => Some(0x1d),
            0x12 => Some(0x24),
            0x13 => Some(0x2d),
            0x14 => Some(0x2c),
            0x15 => Some(0x35),
            0x16 => Some(0x3c),
            0x17 => Some(0x43),
            0x18 => Some(0x44),
            0x19 => Some(0x4d),
            0x1a => Some(0x54),
            0x1b => Some(0x5b),
            0x1c => Some(0x5a),
            0x1d => Some(0x14),
            0x1e => Some(0x1c),
            0x1f => Some(0x1b),
            0x20 => Some(0x23),
            0x21 => Some(0x2b),
            0x22 => Some(0x34),
            0x23 => Some(0x33),
            0x24 => Some(0x3b),
            0x25 => Some(0x42),
            0x26 => Some(0x4b),
            0x27 => Some(0x4c),
            0x28 => Some(0x52),
            0x29 => Some(0x0e),
            0x2a => Some(0x12),
            0x2b => Some(0x5d),
            0x2c => Some(0x1a),
            0x2d => Some(0x22),
            0x2e => Some(0x21),
            0x2f => Some(0x2a),
            0x30 => Some(0x32),
            0x31 => Some(0x31),
            0x32 => Some(0x3a),
            0x33 => Some(0x41),
            0x34 => Some(0x49),
            0x35 => Some(0x4a),
            0x36 => Some(0x59),
            0x37 => Some(0x7c),
            0x38 => Some(0x11),
            0x39 => Some(0x29),
            0x3a => Some(0x58),
            0x3b => Some(0x05),
            0x3c => Some(0x06),
            0x3d => Some(0x04),
            0x3e => Some(0x0c),
            0x3f => Some(0x03),
            0x40 => Some(0x0b),
            0x41 => Some(0x83),
            0x42 => Some(0x0a),
            0x43 => Some(0x01),
            0x44 => Some(0x09),
            0x45 => Some(0x78),
            0x46 => Some(0x07),
            0x47 => Some(0x6c),
            0x48 => Some(0x75),
            0x49 => Some(0x7d),
            0x4a => Some(0x7b),
            0x4b => Some(0x6b),
            0x4c => Some(0x73),
            0x4d => Some(0x74),
            0x4e => Some(0x79),
            0x4f => Some(0x69),
            0x50 => Some(0x72),
            0x51 => Some(0x7a),
            0x52 => Some(0x70),
            0x53 => Some(0x71),
            _ => None,
        }
    }
}

/// The bytes of a key event. Set 1 marks a release by the top bit of the code, set 2 by a
/// prefix; extended keys have a prefix in both.
pub open spec fn scan_code_bytes(key: u32, pressed: bool, send_set1: bool) -> Seq<u8> {
    match set1_code(key) {
        None => Seq::empty(),
        Some((code, extended)) => {
            let prefix = if extended {
                seq![0xe0u8]
            } else {
                Seq::empty()
            };
            if send_set1 {
                prefix.push(
                    if pressed {
                        code
                    } else {
                        code | 0x80
                    },
                )
            } else {
                match set2_code(code, extended) {
                    None => Seq::empty(),
                    Some(code2) => if pressed {
                        prefix.push(code2)
                    } else {
                        prefix.push(0xf0).push(code2)
                    },
                }
            }
        },
    }
}

/// Maps X11 keysyms to PS/2 scan codes.
pub struct KeyboardMap;

impl KeyboardMap {
    fn set1_make_code(key: u32) -> (r: Option<(u8, bool)>)
        ensures
            r == set1_code(key),
    {
        let unshifted_key: u32 = if 0x41 <= key && key <= 0x5a {
            key + 0x20
        } else {
            key
        };
        match unshifted_key {
            0x61 => Some((0x1e, false)),
            0x62 => Some((0x30, false)),
            0x63 => Some((0x2e, false)),
            0x64 => Some((0x20, false)),
            0x65 => Some((0x12, false)),
            0x66 => Some((0x21, false)),
            0x67 => Some((0x22, false)),
            0x68 => Some((0x23, false)),
            0x69 => Some((0x17, false)),
            0x6a => Some((0x24, false)),
            0x6b => Some((0x25, false)),
            0x6c => Some((0x26, false)),
            0x6d => Some((0x32, false)),
            0x6e => Some((0x31, false)),
            0x6f => Some((0x18, false)),
            0x70 => Some((0x19, false)),
            0x71 => Some((0x10, false)),
            0x72 => Some((0x13, false)),
            0x73 => Some((0x1f, false)),
            0x74 => Some((0x14, false)),
            0x75 => Some((0x16, false)),
            0x76 => Some((0x2f, false)),
            0x77 => Some((0x11, false)),
            0x78 => Some((0x2d, false)),
            0x79 => Some((0x15, false)),
            0x7a => Some((0x2c, false)),
            0x30 => Some((0x0b, false)),
            0x31 => Some((0x02, false)),
            0x32 => Some((0x03, false)),
            0x33 => Some((0x04, false)),
            0x34 => Some((0x05, false)),
            0x35 => Some((0x06, false)),
            0x36 => Some((0x07, false)),
            0x37 => Some((0x08, false)),
            0x38 => Some((0x09, false)),
            0x39 => Some((0x0a, false)),
            0x20 => Some((0x39, false)),
            0x21 => Some((0x02, false)),
            0x60 => Some((0x29, false)),
            0x2d => Some((0x0c, false)),
            0x3d => Some((0x0d, false)),
            0x5b => Some((0x1a, false)),
            0x5d => Some((0x1b, false)),
            0x5c => Some((0x2b, false)),
            0x3b => Some((0x27, false)),
            0x27 => Some((0x28, false)),
            0x2c => Some((0x33, false)),
            0x2e => Some((0x34, false)),
            0x2f => Some((0x35, false)),
            0xff1b => Some((0x01, false)),
            0xff09 => Some((0x0f, false)),
            0xff0d => Some((0x1c, false)),
            0xffe1 => Some((0x2a, false)),
            0xffe2 => Some((0x36, false)),
            0xffe3 => Some((0x1d, false)),
            0xffe4 => Some((0x1d, true)),
            0xffe9 => Some((0x38, false)),
            0xffea => Some((0x38, true)),
            0xffe5 => Some((0x3a, false)),
            0xff08 => Some((0x0e, false)),
            0xffff => Some((0x53, true)),
            0xff67 => Some((0x53, true)),
            0xff50 => Some((0x47, true)),
            0xff57 => Some((0x4f, true)),
            0xff55 => Some((0x49, true)),
            0xff56 => Some((0x51, true)),
            0xff52 => Some((0x48, true)),
            0xff54 => Some((0x50, true)),
            0xff51 => Some((0x4b, true)),
            0xff53 => Some((0x4d, true)),
            0xff63 => Some((0x52, true)),
            0xffbe => Some((0x3b, false)),
            0xffbf => Some((0x3c, false)),
            0xffc0 => Some((0x3d, false)),
            0xffc1 => Some((0x3e, false)),
            0xffc2 => Some((0x3f, false)),
            0xffc3 => Some((0x40, false)),
            0xffc4 => Some((0x41, false)),
            0xffc5 => Some((0x42, false)),
            0xffc6 => Some((0x43, false)),
            0xffc7 => Some((0x44, false)),
            0xffc8 => Some((0x45, false)),
            0xffc9 => Some((0x46, false)),
            0xff90 => Some((0x52, false)),
            0xff91 => Some((0x4f, false)),
            0xff92 => Some((0x50, false)),
            0xff93 => Some((0x51, false)),
            0xff94 => Some((0x4b, false)),
            0xff95 => Some((0x4c, false)),
            0xff96 => Some((0x4d, false)),
            0xff97 => Some((0x47, false)),
            0xff98 => Some((0x48, false)),
            0xff99 => Some((0x49, false)),
            0xffae => Some((0x53, false)),
            0xff8d => Some((0x1c, true)),
            0xff6b => Some((0x4e, false)),
            0xff6d => Some((0x4a, false)),
            0xff6a => Some((0x37, false)),
            0xff6f => Some((0x35, true)),
            _ => None,
        }
    }

    /// The bytes that the keyboard sends for a key event; none for a key that it lacks.
    pub fn scan_codes(key: u32, pressed: bool, send_set1: bool) -> (r: Vec<u8>)
        ensures
            r@ == scan_code_bytes(key, pressed, send_set1),
    {
        let mut bytes: Vec<u8> = Vec::new();
        let (make_code, e0) = match Self::set1_make_code(key) {
            Some(code) => code,
            None => {
                return bytes;
            },
        };
        if send_set1 {
            if e0 {
                bytes.push(0xe0);
            }
            if pressed {
                bytes.push(make_code);
            } else {
                bytes.push(make_code | 0x80);
            }
        } else {
            let make_code2: u8 = match Self::set2_make_code(make_code, e0) {
                Some(code) => code,
                None => {
                    return bytes;
                },
            };
            if e0 {
                bytes.push(0xe0);
            }
            if !pressed {
                bytes.push(0xf0);
            }
            bytes.push(make_code2);
        }
        assert(bytes@ =~= scan_code_bytes(key, pressed, send_set1));
        bytes
    }

    /// The set-2 make code of a key with a given set-1 make code. Firmware can switch the
    /// translation to set 1 off, and then reads the bytes of set 2.
    pub fn set2_make_code(set1: u8, e0: bool) -> (r: Option<u8>)
        ensures
            r == set2_code(set1, e0),
    {
        if e0 {
            match set1 {
                0x1c => Some(0x5a),
                0x1d => Some(0x14),
                0x35 => Some(0x4a),
                0x38 => Some(0x11),
                0x47 => Some(0x6c),
                0x48 => Some(0x75),
                0x49 => Some(0x7d),
                0x4b => Some(0x6b),
                0x4d => Some(0x74),
                0x4f => Some(0x69),
                0x50 => Some(0x72),
                0x51 => Some(0x7a),
                0x52 => Some(0x70),
                0x53 => Some(0x71),
                _ => None,
            }
        } else {
            match set1 {
                0x01 => Some(0x76),
                0x02 => Some(0x16),
                0x03 => Some(0x1e),
                0x04 => Some(0x26),
                0x05 => Some(0x25),
                0x06 => Some(0x2e),
                0x07 => Some(0x36),
                0x08 => Some(0x3d),
                0x09 => Some(0x3e),
                0x0a => Some(0x46),
                0x0b => Some(0x45),
                0x0c => Some(0x4e),
                0x0d => Some(0x55),
                0x0e => Some(0x66),
                0x0f => Some(0x0d),
                0x10 => Some(0x15),
                0x11 => Some(0x1d),
                0x12 => Some(0x24),
                0x13 => Some(0x2d),
                0x14 => Some(0x2c),
                0x15 => Some(0x35),
                0x16 => Some(0x3c),
                0x17 => Some(0x43),
                0x18 => Some(0x44),
                0x19 => Some(0x4d),
                0x1a => Some(0x54),
                0x1b => Some(0x5b),
                0x1c => Some(0x5a),
                0x1d => Some(0x14),
                0x1e => Some(0x1c),
                0x1f => Some(0x1b),
                0x20 => Some(0x23),
                0x21 => Some(0x2b),
                0x22 => Some(0x34),
                0x23 => Some(0x33),
                0x24 => Some(0x3b),
                0x25 => Some(0x42),
                0x26 => Some(0x4b),
                0x27 => Some(0x4c),
                0x28 => Some(0x52),
                0x29 => Some(0x0e),
                0x2a => Some(0x12),
                0x2b => Some(0x5d),
                0x2c => Some(0x1a),
                0x2d => Some(0x22),
                0x2e => Some(0x21),
                0x2f => Some(0x2a),
                0x30 => Some(0x32),
                0x31 => Some(0x31),
                0x32 => Some(0x3a),
                0x33 => Some(0x41),
                0x34 => Some(0x49),
                0x35 => Some(0x4a),
                0x36 => Some(0x59),
                0x37 => Some(0x7c),
                0x38 => Some(0x11),
                0x39 => Some(0x29),
                0x3a => Some(0x58),
                0x3b => Some(0x05),
                0x3c => Some(0x06),
                0x3d => Some(0x04),
                0x3e => Some(0x0c),
                0x3f => Some(0x03),
                0x40 => Some(0x0b),
                0x41 => Some(0x83),
                0x42 => Some(0x0a),
                0x43 => Some(0x01),
                0x44 => Some(0x09),
                0x45 => Some(0x78),
                0x46 => Some(0x07),
                0x47 => Some(0x6c),
                0x48 => Some(0x75),
                0x49 => Some(0x7d),
                0x4a => Some(0x7b),
                0x4b => Some(0x6b),
                0x4c => Some(0x73),
                0x4d => Some(0x74),
                0x4e => Some(0x79),
                0x4f => Some(0x69),
                0x50 => Some(0x72),
                0x51 => Some(0x7a),
                0x52 => Some(0x70),
                0x53 => Some(0x71),
                _ => None,
            }
        }
    }
}

/// Every key that has a set-1 code has a set-2 code.
pub proof fn every_key_is_in_both_sets(key: u32)
    requires
        set1_code(key) is Some,
    ensures
        ({
            let (code, extended) = set1_code(key)->0;
            set2_code(code, extended) is Some
        }),
{
}

/// A key event has at most three bytes.
pub proof fn key_events_are_short(key: u32, pressed: bool, send_set1: bool)
    ensures
        scan_code_bytes(key, pressed, send_set1).len() <= 3,
{
}

/// The row of the digits, from one to the equals sign.
pub open spec fn digit_row() -> Seq<u32> {
    seq![
        0x31u32, 0x32, 0x33, 0x34, 0x35, 0x36, 0x37, 0x38, 0x39, 0x30, 0x2d, 0x3d,
    ]
}

/// The row from Q to the right bracket.
pub open spec fn upper_row() -> Seq<u32> {
    seq![
        0x71u32, 0x77, 0x65, 0x72, 0x74, 0x79, 0x75, 0x69, 0x6f, 0x70, 0x5b, 0x5d,
    ]
}

/// The row from A to the grave accent.
pub open spec fn middle_row() -> Seq<u32> {
    seq![
        0x61u32, 0x73, 0x64, 0x66, 0x67, 0x68, 0x6a, 0x6b, 0x6c, 0x3b, 0x27, 0x60,
    ]
}

/// The row from the backslash to the slash.
pub open spec fn lower_row() -> Seq<u32> {
    seq![
        0x5cu32, 0x7a, 0x78, 0x63, 0x76, 0x62, 0x6e, 0x6d, 0x2c, 0x2e, 0x2f,
    ]
}

/// The function keys.
pub open spec fn function_row() -> Seq<u32> {
    seq![
        0xffbeu32, 0xffbf, 0xffc0, 0xffc1, 0xffc2, 0xffc3, 0xffc4, 0xffc5, 0xffc6, 0xffc7,
        0xffc8, 0xffc9,
    ]
}

/// The keypad: 7 8 9 minus, 4 5 6 plus, 1 2 3, 0 and the point.
pub open spec fn keypad() -> Seq<u32> {
    seq![
        0xff97u32, 0xff98, 0xff99, 0xff6d, 0xff94, 0xff95, 0xff96, 0xff6b, 0xff91, 0xff92,
        0xff93, 0xff90, 0xffae,
    ]
}

/// The key of a cursor block that has the function of a key of the keypad: home on 7, and so on.
pub open spec fn cursor_key(i: int) -> Option<u32> {
    if i == 0 {
        Some(0xff50)
    } else if i == 1 {
        Some(0xff52)
    } else if i == 2 {
        Some(0xff55)
    } else if i == 4 {
        Some(0xff51)
    } else if i == 6 {
        Some(0xff53)
    } else if i == 8 {
        Some(0xff57)
    } else if i == 9 {
        Some(0xff54)
    } else if i == 10 {
        Some(0xff56)
    } else if i == 11 {
        Some(0xff63)
    } else if i == 12 {
        Some(0xffff)
    } else {
        None
    }
}

/// The keys of a row have codes in a row: the main block is numbered from left to right and from
/// top to bottom, and so is the keypad. The keys of the cursor block are the extended keys with
/// the codes of the keypad.
pub proof fn rows_are_numbered_from_left_to_right(i: int)
    ensures
        0 <= i < 12 ==> set1_code(digit_row()[i]) == Some(((0x2 + i) as u8, false)),
        0 <= i < 12 ==> set1_code(upper_row()[i]) == Some(((0x10 + i) as u8, false)),
        0 <= i < 12 ==> set1_code(middle_row()[i]) == Some(((0x1e + i) as u8, false)),
        0 <= i < 11 ==> set1_code(lower_row()[i]) == Some(((0x2b + i) as u8, false)),
        0 <= i < 12 ==> set1_code(function_row()[i]) == Some(((0x3b + i) as u8, false)),
        0 <= i < 13 ==> set1_code(keypad()[i]) == Some(((0x47 + i) as u8, false)),
        cursor_key(i) matches Some(key) ==> set1_code(key) == Some(((0x47 + i) as u8, true)),
{
    if i == 0 {
    } else if i == 1 {
    } else if i == 2 {
    } else if i == 3 {
    } else if i == 4 {
    } else if i == 5 {
    } else if i == 6 {
    } else if i == 7 {
    } else if i == 8 {
    } else if i == 9 {
    } else if i == 10 {
    } else if i == 11 {
    } else if i == 12 {
    }
}

/// The code of a key that has one.
pub open spec fn code_of(key: u32) -> u8 {
    match set1_code(key) {
        Some((code, _)) => code,
        None => 0,
    }
}

/// The keys around the rows: escape before the digits, backspace after them, and the other keys
/// at the edges of their rows. The right control and alternate keys, enter and slash of the
/// keypad are the extended keys with the codes of their counterparts.
pub proof fn the_edges_are_numbered_with_their_rows()
    ensures
        set1_code(0xff1b) == Some(((code_of(digit_row()[0]) - 1) as u8, false)),
        set1_code(0xff08) == Some(((code_of(digit_row()[11]) + 1) as u8, false)),
        set1_code(0xff09) == Some(((code_of(upper_row()[0]) - 1) as u8, false)),
        set1_code(0xff0d) == Some(((code_of(upper_row()[11]) + 1) as u8, false)),
        set1_code(0xffe3) == Some(((code_of(middle_row()[0]) - 1) as u8, false)),
        set1_code(0xffe1) == Some(((code_of(lower_row()[0]) - 1) as u8, false)),
        set1_code(0xffe2) == Some(((code_of(lower_row()[10]) + 1) as u8, false)),
        set1_code(0xff6a) == Some(((code_of(lower_row()[10]) + 2) as u8, false)),
        set1_code(0xffe9) == Some(((code_of(lower_row()[10]) + 3) as u8, false)),
        set1_code(0x20) == Some(((code_of(lower_row()[10]) + 4) as u8, false)),
        set1_code(0xffe5) == Some(((code_of(function_row()[0]) - 1) as u8, false)),
        set1_code(0xffe4) == Some((code_of(0xffe3), true)),
        set1_code(0xffea) == Some((code_of(0xffe9), true)),
        set1_code(0xff8d) == Some((code_of(0xff0d), true)),
        set1_code(0xff6f) == Some((code_of(0x2f), true)),
        set1_code(0xff67) == set1_code(0xffff),
        set1_code(0x21) == set1_code(0x31),
{
}

/// Both cases of a letter are one key.
pub proof fn a_letter_has_one_key(key: u32)
    requires
        0x41 <= key <= 0x5a,
    ensures
        set1_code(key) == set1_code((key + 0x20) as u32),
        set1_code(key) is Some,
{
}

/// A key sends one code when it is pressed. The release is the same code, marked: with its top
/// bit in set 1, and with a byte before it in set 2. An extended key has one more byte in front.
pub proof fn a_release_is_the_marked_press(key: u32)
    requires
        set1_code(key) is Some,
    ensures
        ({
            let (code, extended) = set1_code(key)->0;
            let (press1, release1) = (
                scan_code_bytes(key, true, true),
                scan_code_bytes(key, false, true),
            );
            let (press2, release2) = (
                scan_code_bytes(key, true, false),
                scan_code_bytes(key, false, false),
            );
            &&& press1.last() == code && code < 128
            &&& release1.last() == code + 128
            &&& release1.drop_last() == press1.drop_last()
            &&& press1.drop_last() == (if extended {
                seq![0xe0u8]
            } else {
                Seq::empty()
            })
            &&& press2.drop_last() == press1.drop_last()
            &&& press2.last() == set2_code(code, extended)->0
            &&& release2 == press2.drop_last() + seq![0xf0u8, press2.last()]
        }),
{
    let (code, extended) = set1_code(key)->0;
    every_key_is_in_both_sets(key);
    lemma_small_codes(key);
    assert(code < 128 ==> code | 0x80 == code + 128) by (bit_vector);
    let press1 = scan_code_bytes(key, true, true);
    let press2 = scan_code_bytes(key, true, false);
    let prefix = if extended {
        seq![0xe0u8]
    } else {
        Seq::empty()
    };
    assert(press1.drop_last() =~= prefix);
    assert(scan_code_bytes(key, false, true).drop_last() =~= prefix);
    assert(press2.drop_last() =~= prefix);
    assert(scan_code_bytes(key, false, false) =~= prefix + seq![0xf0u8, press2.last()]);
}

proof fn lemma_small_codes(key: u32)
    ensures
        set1_code(key) matches Some((code, _)) ==> 1 <= code < 0x54,
{
}

/// In set 2 an extended key has the code of the plain key with the same set-1 code.
pub proof fn extended_keys_have_plain_codes(code: u8)
    ensures
        set2_code(code, true) matches Some(code2) ==> set2_code(code, false) == Some(code2),
{
}

/// Two keys with different set-1 codes have different set-2 codes.
#[verifier::spinoff_prover]
#[verifier::rlimit(60)]
pub proof fn set_two_tells_keys_apart(a: u8, b: u8)
    requires
        set2_code(a, false) is Some,
        set2_code(a, false) == set2_code(b, false),
    ensures
        a == b,
{
}

} // verus!
