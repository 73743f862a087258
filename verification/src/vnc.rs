//! The remote framebuffer protocol: what a server says and what it makes of its client.
use vstd::prelude::*;

use std::collections::VecDeque;

use crate::bytes::{
    get_be16, get_be32, push_be16, push_be32, push_le32, push_range, range_of,
};

verus! {

pub const MAX_CLIENT_MESSAGE_SIZE: usize = 16_777_216;

/// Why a client is dropped.
#[derive(Clone, Copy, Debug, PartialEq, Eq)]
pub enum VncError {
    /// The client speaks neither version 3.8 nor 3.3.
    UnsupportedVersion,
    /// The client chose a security type that was not offered.
    InvalidSecurityType,
    /// Version 3.3 would need a password.
    AuthenticationNotSupported,
    /// Pixels cannot be indices into a color map.
    ColorMapNotSupported,
    /// The sizes of the pixel format make no sense.
    InvalidPixelFormat,
    /// The color fields overlap or exceed the pixel.
    PixelFieldsConflict,
    /// A row of the framebuffer overflows.
    WidthOverflow,
    /// The framebuffer overflows.
    SizeOverflow,
    /// The framebuffer has fewer bytes than its dimensions need.
    ShortFramebuffer,
    /// The client closed the connection.
    Disconnected,
    /// More input has arrived than any message can have.
    InputTooLarge,
    /// The connection could not be read.
    ReadFailed,
    /// The message announces more than the maximum size.
    MessageTooLarge,
    /// No message has this type.
    UnsupportedMessage(u8),
    /// The framebuffer is not mapped.
    FramebufferUnavailable,
    /// The connection was reset.
    ConnectionReset,
    /// An update could not be sent.
    BrokenPipe,
}

#[derive(Clone, Copy, Debug, PartialEq, Eq, Structural)]
pub struct PixelFormat {
    pub bits_per_pixel: u8,
    pub depth: u8,
    pub big_endian: bool,
    pub red_max: u16,
    pub green_max: u16,
    pub blue_max: u16,
    pub red_shift: u8,
    pub green_shift: u8,
    pub blue_shift: u8,
}

/// The format of the framebuffer: 32 bits of padding, red, green and blue.
pub open spec fn xrgb8888() -> PixelFormat {
    PixelFormat {
        bits_per_pixel: 32,
        depth: 24,
        big_endian: false,
        red_max: 255,
        green_max: 255,
        blue_max: 255,
        red_shift: 16,
        green_shift: 8,
        blue_shift: 0,
    }
}

pub fn xrgb8888_format() -> (r: PixelFormat)
    ensures
        r == xrgb8888(),
{
    PixelFormat {
        bits_per_pixel: 32,
        depth: 24,
        big_endian: false,
        red_max: 255,
        green_max: 255,
        blue_max: 255,
        red_shift: 16,
        green_shift: 8,
        blue_shift: 0,
    }
}

/// The largest value of a pixel.
pub open spec fn pixel_mask(bits_per_pixel: u8) -> u64 {
    if bits_per_pixel == 32 {
        0xffff_ffff
    } else if bits_per_pixel == 16 {
        0xffff
    } else {
        0xff
    }
}

/// The bits of a color field, as far as they lie in 64 bits.
pub open spec fn field_mask(maximum: u16, shift: u8) -> u64 {
    (maximum as u64) << shift
}

/// Whether a color field lies inside the pixel. One that is shifted out altogether has no
/// bits outside.
pub open spec fn field_fits(maximum: u16, shift: u8, bits_per_pixel: u8) -> bool {
    shift < 64 && field_mask(maximum, shift) <= pixel_mask(bits_per_pixel)
}

impl PixelFormat {
    pub open spec fn sizes_valid(self) -> bool {
        &&& self.bits_per_pixel == 8 || self.bits_per_pixel == 16 || self.bits_per_pixel == 32
        &&& 0 < self.depth <= self.bits_per_pixel
        &&& self.red_max != 0 && self.green_max != 0 && self.blue_max != 0
    }

    pub open spec fn fields_valid(self) -> bool {
        &&& field_fits(self.red_max, self.red_shift, self.bits_per_pixel)
        &&& field_fits(self.green_max, self.green_shift, self.bits_per_pixel)
        &&& field_fits(self.blue_max, self.blue_shift, self.bits_per_pixel)
        &&& field_mask(self.red_max, self.red_shift) & field_mask(self.green_max, self.green_shift)
            == 0
        &&& field_mask(self.red_max, self.red_shift) & field_mask(self.blue_max, self.blue_shift)
            == 0
        &&& field_mask(self.green_max, self.green_shift) & field_mask(
            self.blue_max,
            self.blue_shift,
        ) == 0
    }

    pub open spec fn valid(self) -> bool {
        self.sizes_valid() && self.fields_valid()
    }

    /// The format in the sixteen bytes that follow the padding of a format message.
    pub open spec fn encoded_in(message: Seq<u8>) -> PixelFormat {
        PixelFormat {
            bits_per_pixel: message[4],
            depth: message[5],
            big_endian: message[6] != 0,
            red_max: crate::bytes::be16(message, 8),
            green_max: crate::bytes::be16(message, 10),
            blue_max: crate::bytes::be16(message, 12),
            red_shift: message[14],
            green_shift: message[15],
            blue_shift: message[16],
        }
    }

    pub open spec fn selected(message: Seq<u8>) -> Result<PixelFormat, VncError> {
        let format = PixelFormat::encoded_in(message);
        if message[7] == 0 {
            Err(VncError::ColorMapNotSupported)
        } else if !format.sizes_valid() {
            Err(VncError::InvalidPixelFormat)
        } else if !format.fields_valid() {
            Err(VncError::PixelFieldsConflict)
        } else {
            Ok(format)
        }
    }

    pub fn from_set_pixel_format(message: &[u8]) -> (r: Result<Self, VncError>)
        requires
            message@.len() == 20,
        ensures
            r == PixelFormat::selected(message@),
    {
        let format = PixelFormat {
            bits_per_pixel: message[4],
            depth: message[5],
            big_endian: message[6] != 0,
            red_max: get_be16(message, 8),
            green_max: get_be16(message, 10),
            blue_max: get_be16(message, 12),
            red_shift: message[14],
            green_shift: message[15],
            blue_shift: message[16],
        };
        if message[7] == 0 {
            return Err(VncError::ColorMapNotSupported);
        }
        if !(format.bits_per_pixel == 8 || format.bits_per_pixel == 16 || format.bits_per_pixel
            == 32) || format.depth == 0 || format.depth > format.bits_per_pixel || format.red_max
            == 0 || format.green_max == 0 || format.blue_max == 0 {
            return Err(VncError::InvalidPixelFormat);
        }
        let mask: u64 = if format.bits_per_pixel == 32 {
            0xffff_ffff
        } else if format.bits_per_pixel == 16 {
            0xffff
        } else {
            0xff
        };
        if format.red_shift >= 64 || format.green_shift >= 64 || format.blue_shift >= 64 {
            return Err(VncError::PixelFieldsConflict);
        }
        let red: u64 = (format.red_max as u64) << format.red_shift;
        let green: u64 = (format.green_max as u64) << format.green_shift;
        let blue: u64 = (format.blue_max as u64) << format.blue_shift;
        if red > mask || green > mask || blue > mask || red & green != 0 || red & blue != 0 || green
            & blue != 0 {
            return Err(VncError::PixelFieldsConflict);
        }
        Ok(format)
    }

    pub fn bytes_per_pixel(self) -> (r: usize)
        ensures
            r == self.bits_per_pixel / 8,
    {
        (self.bits_per_pixel / 8) as usize
    }
}

#[derive(Clone, Copy, Debug, PartialEq, Eq)]
pub struct FramebufferUpdateRequest {
    pub incremental: bool,
}

/// What a client has asked for so far.
#[derive(Clone, Copy, Debug, PartialEq, Eq)]
pub struct ClientState {
    pub pixel_format: PixelFormat,
    pub framebuffer_request: Option<FramebufferUpdateRequest>,
    pub pointer_button_mask: u8,
}

impl ClientState {
    /// The state of a client that has asked for nothing.
    pub open spec fn initial() -> ClientState {
        ClientState {
            pixel_format: xrgb8888(),
            framebuffer_request: None,
            pointer_button_mask: 0,
        }
    }
}

impl Default for ClientState {
    fn default() -> (r: Self)
        ensures
            r == ClientState::initial(),
    {
        ClientState {
            pixel_format: xrgb8888_format(),
            framebuffer_request: None,
            pointer_button_mask: 0,
        }
    }
}

/// An input event of a client.
#[derive(Clone, Copy, Debug, PartialEq, Eq)]
pub enum VncInputEvent {
    Keyboard { key: u32, down: bool },
    MouseButton { button: u8, down: bool },
    PointerMove { dx: i16, dy: i16 },
    PointerPosition { x: u32, y: u32 },
    ReleaseAll,
}

/// The version that the server announces: "RFB 003.008" and a line feed.
pub open spec fn greeting() -> Seq<u8> {
    seq![0x52u8, 0x46, 0x42, 0x20, 0x30, 0x30, 0x33, 0x2e, 0x30, 0x30, 0x38, 0x0a]
}

/// "003.008".
pub open spec fn version_3_8() -> Seq<u8> {
    seq![0x30u8, 0x30, 0x33, 0x2e, 0x30, 0x30, 0x38]
}

/// "003.003".
pub open spec fn version_3_3() -> Seq<u8> {
    seq![0x30u8, 0x30, 0x33, 0x2e, 0x30, 0x30, 0x33]
}

/// Whether `part` occurs in `s`.
pub open spec fn has_part(s: Seq<u8>, part: Seq<u8>) -> bool {
    exists|i: int|
        0 <= i <= s.len() - part.len() && #[trigger] s.subrange(i, i + part.len()) == part
}

fn contains_part(s: &[u8], part: &[u8]) -> (r: bool)
    ensures
        r == has_part(s@, part@),
{
    if part.len() > s.len() {
        return false;
    }
    let last: usize = s.len() - part.len();
    let mut i: usize = 0;
    while i <= last
        invariant
            i <= last + 1,
            last + part@.len() == s@.len(),
            s@.len() <= usize::MAX,
            forall|k: int| 0 <= k < i ==> #[trigger] s@.subrange(k, k + part@.len()) != part@,
        decreases last + 1 - i,
    {
        let here = range_of(s, i, i + part.len());
        if crate::bytes::same_bytes(&here, part) {
            assert(s@.subrange(i as int, i + part@.len()) == part@);
            return true;
        }
        if i == last {
            return false;
        }
        i = i + 1;
    }
    false
}

/// What the server sends first.
pub fn handshake_greeting() -> (r: Vec<u8>)
    ensures
        r@ == greeting(),
{
    let r: Vec<u8> = vec![
        0x52,
        0x46,
        0x42,
        0x20,
        0x30,
        0x30,
        0x33,
        0x2e,
        0x30,
        0x30,
        0x38,
        0x0a,
    ];
    assert(r@ =~= greeting());
    r
}

/// The version that a client named: 3.8, or else 3.3.
pub open spec fn agreed_version(client_version: Seq<u8>) -> Result<bool, VncError> {
    if has_part(client_version, version_3_8()) {
        Ok(true)
    } else if has_part(client_version, version_3_3()) {
        Ok(false)
    } else {
        Err(VncError::UnsupportedVersion)
    }
}

/// Whether the client speaks version 3.8, by the version that it sent, and not 3.3.
pub fn handshake(client_version: &[u8]) -> (r: Result<bool, VncError>)
    ensures
        r == agreed_version(client_version@),
{
    let newer: Vec<u8> = vec![0x30, 0x30, 0x33, 0x2e, 0x30, 0x30, 0x38];
    let older: Vec<u8> = vec![0x30, 0x30, 0x33, 0x2e, 0x30, 0x30, 0x33];
    assert(newer@ =~= version_3_8());
    assert(older@ =~= version_3_3());
    if contains_part(client_version, &newer) {
        Ok(true)
    } else if contains_part(client_version, &older) {
        Ok(false)
    } else {
        Err(VncError::UnsupportedVersion)
    }
}

/// The security types that the server offers: none in version 3.8, the one that needs a
/// password in 3.3.
pub open spec fn offered_security(use_rfb38: bool) -> Seq<u8> {
    if use_rfb38 {
        seq![1u8, 1u8]
    } else {
        seq![0u8, 0u8, 0u8, 1u8]
    }
}

pub fn security_offer(use_rfb38: bool) -> (r: Vec<u8>)
    ensures
        r@ == offered_security(use_rfb38),
{
    let r: Vec<u8> = if use_rfb38 {
        vec![1, 1]
    } else {
        vec![0, 0, 0, 1]
    };
    assert(r@ =~= offered_security(use_rfb38));
    r
}

/// The failure reply: one, and "Invalid security type".
pub open spec fn security_refusal() -> Seq<u8> {
    seq![
        0u8, 0, 0, 1, 0x49, 0x6e, 0x76, 0x61, 0x6c, 0x69, 0x64, 0x20, 0x73, 0x65, 0x63, 0x75,
        0x72, 0x69, 0x74, 0x79, 0x20, 0x74, 0x79, 0x70, 0x65,
    ]
}

/// The reply to the security type that a client selected, and whether the client may go on.
pub open spec fn security_verdict(use_rfb38: bool, selected: u8) -> (Seq<u8>, Result<(), VncError>) {
    if selected != 1 {
        (security_refusal(), Err(VncError::InvalidSecurityType))
    } else if use_rfb38 {
        (seq![0u8, 0u8, 0u8, 0u8], Ok(()))
    } else {
        (Seq::empty(), Err(VncError::AuthenticationNotSupported))
    }
}

/// Appends the reply to a selected security type to `writer`, and says whether the client
/// may go on.
pub fn security(writer: &mut Vec<u8>, use_rfb38: bool, selected: u8) -> (r: Result<(), VncError>)
    ensures
        final(writer)@ == old(writer)@ + security_verdict(use_rfb38, selected).0,
        r == security_verdict(use_rfb38, selected).1,
{
    if selected != 1 {
        let mut refusal: Vec<u8> = vec![
            0, 0, 0, 1, 0x49, 0x6e, 0x76, 0x61, 0x6c, 0x69, 0x64, 0x20, 0x73, 0x65, 0x63, 0x75,
            0x72, 0x69, 0x74, 0x79, 0x20, 0x74, 0x79, 0x70, 0x65,
        ];
        assert(refusal@ =~= security_refusal());
        writer.append(&mut refusal);
        return Err(VncError::InvalidSecurityType);
    }
    if use_rfb38 {
        let mut accepted: Vec<u8> = vec![0, 0, 0, 0];
        assert(accepted@ =~= seq![0u8, 0u8, 0u8, 0u8]);
        writer.append(&mut accepted);
        Ok(())
    } else {
        assert(writer@ =~= old(writer)@ + Seq::<u8>::empty());
        Err(VncError::AuthenticationNotSupported)
    }
}

/// "Cloud Hypervisor".
pub open spec fn desktop_name() -> Seq<u8> {
    seq![
        0x43u8, 0x6c, 0x6f, 0x75, 0x64, 0x20, 0x48, 0x79, 0x70, 0x65, 0x72, 0x76, 0x69, 0x73,
        0x6f, 0x72,
    ]
}

/// The description of the desktop: its size, its pixel format and its name.
pub open spec fn server_init_message(width: u32, height: u32) -> Seq<u8> {
    crate::bytes::be16_bytes(width as u16) + crate::bytes::be16_bytes(height as u16) + seq![
        32u8, 24, 0, 1, 0, 255, 0, 255, 0, 255, 16, 8, 0, 0, 0, 0,
    ] + crate::bytes::be32_bytes(16) + desktop_name()
}

/// Appends the description of the desktop to `writer`. Only the low sixteen bits of the
/// dimensions are sent.
pub fn server_init(writer: &mut Vec<u8>, width: u32, height: u32)
    ensures
        final(writer)@ == old(writer)@ + server_init_message(width, height),
{
    push_be16(writer, width as u16);
    push_be16(writer, height as u16);
    let mut format: Vec<u8> = vec![32, 24, 0, 1, 0, 255, 0, 255, 0, 255, 16, 8, 0, 0, 0, 0];
    writer.append(&mut format);
    push_be32(writer, 16);
    let mut name: Vec<u8> = vec![
        0x43, 0x6c, 0x6f, 0x75, 0x64, 0x20, 0x48, 0x79, 0x70, 0x65, 0x72, 0x76, 0x69, 0x73, 0x6f,
        0x72,
    ];
    writer.append(&mut name);
    assert(writer@ =~= old(writer)@ + server_init_message(width, height));
}

/// Takes the client's last word before the session starts: one byte, whose value does not
/// matter, for the desktop is never shared.
pub fn client_init(shared: &[u8]) -> (r: Result<(), VncError>)
    ensures
        r == (if shared@.len() > 0 {
            Ok::<(), VncError>(())
        } else {
            Err(VncError::Disconnected)
        }),
{
    if shared.len() > 0 {
        Ok(())
    } else {
        Err(VncError::Disconnected)
    }
}

/// A color of eight bits in the range of a field, rounded to the nearest value.
pub open spec fn scaled(color: u8, maximum: u16) -> u32 {
    ((color * maximum + 127) / 255) as u32
}

pub fn scale_color(color: u8, maximum: u16) -> (r: u32)
    ensures
        r == scaled(color, maximum),
{
    assert(color * maximum <= 255 * 65535) by (nonlinear_arith)
        requires
            0 <= color <= 255,
            0 <= maximum <= 65535,
    ;
    ((color as u32) * (maximum as u32) + 127) / 255
}

/// The value of a pixel.
pub open spec fn pixel_value(blue: u8, green: u8, red: u8, format: PixelFormat) -> u32 {
    (scaled(red, format.red_max) << format.red_shift) | (scaled(green, format.green_max)
        << format.green_shift) | (scaled(blue, format.blue_max) << format.blue_shift)
}

/// The bytes of a pixel in the client's format.
pub open spec fn pixel_bytes(blue: u8, green: u8, red: u8, format: PixelFormat) -> Seq<u8> {
    let value = pixel_value(blue, green, red, format);
    let width = (format.bits_per_pixel / 8) as int;
    if format.big_endian {
        crate::bytes::be32_bytes(value).skip(4 - width)
    } else {
        crate::bytes::le32_bytes(value).take(width)
    }
}

/// The first `n` pixels of `source` in the client's format.
pub open spec fn converted(source: Seq<u8>, format: PixelFormat, n: nat) -> Seq<u8>
    decreases n,
{
    if n == 0 {
        Seq::empty()
    } else {
        let at = 4 * (n - 1);
        converted(source, format, (n - 1) as nat) + pixel_bytes(
            source[at],
            source[at + 1],
            source[at + 2],
            format,
        )
    }
}

/// Pixels of four bytes in the client's format.
pub open spec fn pixels(source: Seq<u8>, format: PixelFormat) -> Seq<u8> {
    if format == xrgb8888() {
        source
    } else {
        converted(source, format, source.len() / 4)
    }
}

/// Whether pixels can be written in a format.
pub open spec fn writable_format(format: PixelFormat) -> bool {
    format.bits_per_pixel <= 32 && format.red_shift < 32 && format.green_shift < 32
        && format.blue_shift < 32
}

/// Tests whether pixels can be written in a format.
pub fn is_writable_format(format: PixelFormat) -> (r: bool)
    ensures
        r == writable_format(format),
{
    format.bits_per_pixel <= 32 && format.red_shift < 32 && format.green_shift < 32
        && format.blue_shift < 32
}

/// Appends pixels to `writer`, converted from blue, green, red and padding bytes.
pub fn write_pixels(writer: &mut Vec<u8>, source: &[u8], format: PixelFormat)
    requires
        source@.len() >= 4 ==> writable_format(format),
    ensures
        final(writer)@ == old(writer)@ + pixels(source@, format),
{
    if format == xrgb8888_format() {
        push_range(writer, source, 0, source.len());
        assert(source@.subrange(0, source@.len() as int) =~= source@);
        return;
    }
    let count: usize = source.len() / 4;
    let width: usize = format.bytes_per_pixel();
    let mut n: usize = 0;
    while n < count
        invariant
            n <= count,
            count == source.len() / 4,
            width == format.bits_per_pixel / 8,
            count > 0 ==> writable_format(format),
            writer@ == old(writer)@ + converted(source@, format, n as nat),
        decreases count - n,
    {
        let at: usize = 4 * n;
        let red: u32 = scale_color(source[at + 2], format.red_max);
        let green: u32 = scale_color(source[at + 1], format.green_max);
        let blue: u32 = scale_color(source[at], format.blue_max);
        let value: u32 = (red << format.red_shift) | (green << format.green_shift) | (blue
            << format.blue_shift);
        let mut bytes: Vec<u8> = Vec::new();
        if format.big_endian {
            push_be32(&mut bytes, value);
            assert(bytes@ =~= crate::bytes::be32_bytes(value));
            push_range(writer, &bytes, 4 - width, 4);
            assert(bytes@.subrange(4 - width, 4) =~= bytes@.skip(4 - width));
        } else {
            push_le32(&mut bytes, value);
            assert(bytes@ =~= crate::bytes::le32_bytes(value));
            push_range(writer, &bytes, 0, width);
            assert(bytes@.subrange(0, width as int) =~= bytes@.take(width as int));
        }
        n = n + 1;
        assert(writer@ =~= old(writer)@ + converted(source@, format, n as nat));
    }
}

/// The first `n` rows of a framebuffer in the client's format.
pub open spec fn rows(data: Seq<u8>, width: u32, stride: u32, format: PixelFormat, n: nat) -> Seq<
    u8,
>
    decreases n,
{
    if n == 0 {
        Seq::empty()
    } else {
        let start = (n - 1) * stride;
        rows(data, width, stride, format, (n - 1) as nat) + pixels(
            data.subrange(start, start + 4 * width),
            format,
        )
    }
}

/// The header of an update that holds one rectangle of raw pixels.
pub open spec fn update_header(width: u32, height: u32) -> Seq<u8> {
    seq![0u8, 0, 0, 1, 0, 0, 0, 0] + crate::bytes::be16_bytes(width as u16)
        + crate::bytes::be16_bytes(height as u16) + seq![0u8, 0, 0, 0]
}

/// What is wrong with the dimensions of an update, if anything.
pub open spec fn update_check(length: nat, width: u32, height: u32, stride: u32) -> Result<
    (),
    VncError,
> {
    if 4 * width > u32::MAX {
        Err(VncError::WidthOverflow)
    } else if stride * height > u32::MAX {
        Err(VncError::SizeOverflow)
    } else if stride < 4 * width || length < stride * height {
        Err(VncError::ShortFramebuffer)
    } else {
        Ok(())
    }
}

/// Tells what is wrong with the dimensions of an update, if anything.
pub fn check_update(length: usize, width: u32, height: u32, stride: u32) -> (r: Result<
    (),
    VncError,
>)
    ensures
        r == update_check(length as nat, width, height, stride),
{
    let source_row_size: u32 = match width.checked_mul(4) {
        Some(size) => size,
        None => {
            return Err(VncError::WidthOverflow);
        },
    };
    let fb_size: u32 = match stride.checked_mul(height) {
        Some(size) => size,
        None => {
            return Err(VncError::SizeOverflow);
        },
    };
    if stride < source_row_size || length < fb_size as usize {
        return Err(VncError::ShortFramebuffer);
    }
    Ok(())
}

/// Appends an update with the whole framebuffer to `writer`.
pub fn send_framebuffer_update(
    writer: &mut Vec<u8>,
    data: &[u8],
    width: u32,
    height: u32,
    stride: u32,
    pixel_format: PixelFormat,
) -> (r: Result<(), VncError>)
    requires
        update_check(data@.len(), width, height, stride) is Ok && width > 0 && height > 0
            ==> writable_format(pixel_format),
    ensures
        r == update_check(data@.len(), width, height, stride),
        match r {
            Err(_) => final(writer)@ == old(writer)@,
            Ok(()) => final(writer)@ == old(writer)@ + update_header(width, height) + rows(
                data@,
                width,
                stride,
                pixel_format,
                height as nat,
            ),
        },
{
    match check_update(data.len(), width, height, stride) {
        Ok(()) => {},
        Err(error) => {
            return Err(error);
        },
    }
    let source_row_size: u32 = 4 * width;
    let mut header: Vec<u8> = vec![0, 0, 0, 1, 0, 0, 0, 0];
    push_be16(&mut header, width as u16);
    push_be16(&mut header, height as u16);
    header.push(0);
    header.push(0);
    header.push(0);
    header.push(0);
    assert(header@ =~= update_header(width, height));
    writer.append(&mut header);
    let ghost start = writer@;
    let mut y: u32 = 0;
    while y < height
        invariant
            y <= height,
            source_row_size == 4 * width,
            source_row_size <= stride,
            stride * height <= data.len(),
            stride * height <= u32::MAX,
            width > 0 && height > 0 ==> writable_format(pixel_format),
            writer@ == start + rows(data@, width, stride, pixel_format, y as nat),
        decreases height - y,
    {
        assert(y * stride + stride <= height * stride) by (nonlinear_arith)
            requires
                y + 1 <= height,
                0 <= stride,
        ;
        assert(height * stride == stride * height) by (nonlinear_arith);
        assert(0 <= y * stride) by (nonlinear_arith)
            requires
                0 <= y,
                0 <= stride,
        ;
        let from: usize = y as usize * stride as usize;
        let row = range_of(data, from, from + source_row_size as usize);
        write_pixels(writer, &row, pixel_format);
        y = y + 1;
        assert(writer@ =~= start + rows(data@, width, stride, pixel_format, y as nat));
    }
    assert(writer@ =~= old(writer)@ + update_header(width, height) + rows(
        data@,
        width,
        stride,
        pixel_format,
        height as nat,
    ));
    Ok(())
}

/// The size of a message with a header and `count` items.
pub open spec fn variable_size(header_size: nat, count: nat, item_size: nat) -> Result<
    nat,
    VncError,
> {
    if header_size + count * item_size > MAX_CLIENT_MESSAGE_SIZE {
        Err(VncError::MessageTooLarge)
    } else {
        Ok(header_size + count * item_size)
    }
}

/// The size of the message that `input` starts with, once enough of it has arrived to tell.
pub open spec fn message_size(input: Seq<u8>) -> Result<Option<nat>, VncError> {
    if input.len() == 0 {
        Ok(None)
    } else if input[0] == 0 {
        Ok(Some(20))
    } else if input[0] == 1 {
        sized_by_header(input, 6, crate::bytes::be16(input, 4) as nat, 6)
    } else if input[0] == 2 {
        sized_by_header(input, 4, crate::bytes::be16(input, 2) as nat, 4)
    } else if input[0] == 3 {
        Ok(Some(10))
    } else if input[0] == 4 {
        Ok(Some(8))
    } else if input[0] == 5 {
        Ok(Some(6))
    } else if input[0] == 6 {
        sized_by_header(input, 8, crate::bytes::be32(input, 4) as nat, 1)
    } else if input[0] == 9 {
        sized_by_header(input, 5, crate::bytes::be16(input, 3) as nat, 6)
    } else if input[0] == 0xff {
        Ok(Some(13))
    } else {
        Err(VncError::UnsupportedMessage(input[0]))
    }
}

pub open spec fn sized_by_header(input: Seq<u8>, header_size: nat, count: nat, item_size: nat) -> Result<
    Option<nat>,
    VncError,
> {
    if input.len() < header_size {
        Ok(None)
    } else {
        match variable_size(header_size, count, item_size) {
            Ok(size) => Ok(Some(size)),
            Err(error) => Err(error),
        }
    }
}

pub fn variable_message_size(header_size: usize, count: usize, item_size: usize) -> (r: Result<
    usize,
    VncError,
>)
    ensures
        match r {
            Ok(size) => variable_size(header_size as nat, count as nat, item_size as nat) == Ok::<
                nat,
                VncError,
            >(size as nat),
            Err(error) => variable_size(header_size as nat, count as nat, item_size as nat)
                == Err::<nat, VncError>(error),
        },
{
    match count.checked_mul(item_size) {
        None => Err(VncError::MessageTooLarge),
        Some(items_size) => match header_size.checked_add(items_size) {
            None => Err(VncError::MessageTooLarge),
            Some(size) => if size <= MAX_CLIENT_MESSAGE_SIZE {
                Ok(size)
            } else {
                Err(VncError::MessageTooLarge)
            },
        },
    }
}

pub fn client_message_size(input_buffer: &[u8]) -> (r: Result<Option<usize>, VncError>)
    ensures
        match r {
            Ok(Some(size)) => message_size(input_buffer@) == Ok::<Option<nat>, VncError>(
                Some(size as nat),
            ),
            Ok(None) => message_size(input_buffer@) == Ok::<Option<nat>, VncError>(None),
            Err(error) => message_size(input_buffer@) == Err::<Option<nat>, VncError>(error),
        },
{
    if input_buffer.len() == 0 {
        return Ok(None);
    }
    let kind: u8 = input_buffer[0];
    if kind == 0 {
        return Ok(Some(20));
    } else if kind == 3 {
        return Ok(Some(10));
    } else if kind == 4 {
        return Ok(Some(8));
    } else if kind == 5 {
        return Ok(Some(6));
    } else if kind == 0xff {
        return Ok(Some(13));
    }
    let size = if kind == 1 {
        if input_buffer.len() < 6 {
            return Ok(None);
        }
        variable_message_size(6, get_be16(input_buffer, 4) as usize, 6)
    } else if kind == 2 {
        if input_buffer.len() < 4 {
            return Ok(None);
        }
        variable_message_size(4, get_be16(input_buffer, 2) as usize, 4)
    } else if kind == 6 {
        if input_buffer.len() < 8 {
            return Ok(None);
        }
        variable_message_size(8, get_be32(input_buffer, 4) as usize, 1)
    } else if kind == 9 {
        if input_buffer.len() < 5 {
            return Ok(None);
        }
        variable_message_size(5, get_be16(input_buffer, 3) as usize, 6)
    } else {
        Err(VncError::UnsupportedMessage(kind))
    };
    match size {
        Ok(size) => Ok(Some(size)),
        Err(error) => Err(error),
    }
}

/// The events of the first `n` buttons that changed.
pub open spec fn button_events(changed: u8, mask: u8, n: nat) -> Seq<VncInputEvent>
    decreases n,
{
    if n == 0 {
        Seq::empty()
    } else {
        let button = (n - 1) as u8;
        let before = button_events(changed, mask, (n - 1) as nat);
        if changed & (1u8 << button) != 0 {
            before.push(
                VncInputEvent::MouseButton { button, down: mask & (1u8 << button) != 0 },
            )
        } else {
            before
        }
    }
}

/// A complete message: the client's state after it, the input events in it, and whether
/// it is accepted.
pub open spec fn after_message(state: ClientState, message: Seq<u8>) -> (
    ClientState,
    Seq<VncInputEvent>,
    Result<(), VncError>,
) {
    let kind = message[0];
    if kind == 0 {
        match PixelFormat::selected(message) {
            Ok(pixel_format) => (ClientState { pixel_format, ..state }, Seq::empty(), Ok(())),
            Err(error) => (state, Seq::empty(), Err(error)),
        }
    } else if kind == 3 {
        (
            ClientState {
                framebuffer_request: Some(
                    FramebufferUpdateRequest { incremental: message[1] != 0 },
                ),
                ..state
            },
            Seq::empty(),
            Ok(()),
        )
    } else if kind == 4 {
        (
            state,
            seq![
                VncInputEvent::Keyboard {
                    key: crate::bytes::be32(message, 4),
                    down: message[1] != 0,
                },
            ],
            Ok(()),
        )
    } else if kind == 5 {
        let mask = message[1];
        (
            ClientState { pointer_button_mask: mask, ..state },
            button_events(state.pointer_button_mask ^ mask, mask, 5).push(
                VncInputEvent::PointerPosition {
                    x: crate::bytes::be16(message, 2) as u32,
                    y: crate::bytes::be16(message, 4) as u32,
                },
            ),
            Ok(()),
        )
    } else if kind == 0xff && message[1] == 0 {
        (
            state,
            seq![
                VncInputEvent::Keyboard {
                    key: crate::bytes::be32(message, 4),
                    down: crate::bytes::be16(message, 2) != 0,
                },
            ],
            Ok(()),
        )
    } else {
        (state, Seq::empty(), Ok(()))
    }
}

/// Handles one complete message; the input events in it are appended to `events`.
pub fn handle_client_message(
    message: &[u8],
    events: &mut Vec<VncInputEvent>,
    client_state: &mut ClientState,
) -> (r: Result<(), VncError>)
    requires
        message_size(message@) == Ok::<Option<nat>, VncError>(Some(message@.len())),
    ensures
        *final(client_state) == after_message(*old(client_state), message@).0,
        final(events)@ == old(events)@ + after_message(*old(client_state), message@).1,
        r == after_message(*old(client_state), message@).2,
{
    let kind: u8 = message[0];
    if kind == 0 {
        match PixelFormat::from_set_pixel_format(message) {
            Ok(pixel_format) => {
                client_state.pixel_format = pixel_format;
            },
            Err(error) => {
                assert(events@ =~= old(events)@ + Seq::<VncInputEvent>::empty());
                return Err(error);
            },
        }
        assert(events@ =~= old(events)@ + Seq::<VncInputEvent>::empty());
    } else if kind == 3 {
        client_state.framebuffer_request =
        Some(FramebufferUpdateRequest { incremental: message[1] != 0 });
        assert(events@ =~= old(events)@ + Seq::<VncInputEvent>::empty());
    } else if kind == 4 {
        events.push(
            VncInputEvent::Keyboard { key: get_be32(message, 4), down: message[1] != 0 },
        );
    } else if kind == 5 {
        let mask: u8 = message[1];
        let x: u32 = get_be16(message, 2) as u32;
        let y: u32 = get_be16(message, 4) as u32;
        let changed: u8 = client_state.pointer_button_mask ^ mask;
        let mut button: u8 = 0;
        assert(events@ =~= old(events)@ + button_events(changed, mask, 0));
        while button < 5
            invariant
                button <= 5,
                events@ == old(events)@ + button_events(changed, mask, button as nat),
            decreases 5 - button,
        {
            let bit: u8 = 1u8 << button;
            if changed & bit != 0 {
                events.push(VncInputEvent::MouseButton { button, down: mask & bit != 0 });
            }
            button = button + 1;
            assert(events@ =~= old(events)@ + button_events(changed, mask, button as nat));
        }
        client_state.pointer_button_mask = mask;
        events.push(VncInputEvent::PointerPosition { x, y });
        assert(events@ =~= old(events)@ + after_message(*old(client_state), message@).1);
    } else if kind == 0xff && message[1] == 0 {
        let down = get_be16(message, 2) != 0;
        events.push(VncInputEvent::Keyboard { key: get_be32(message, 4), down });
    } else {
        assert(events@ =~= old(events)@ + Seq::<VncInputEvent>::empty());
    }
    Ok(())
}

/// All complete messages that `input` starts with: the input that is left, the client's
/// state, the input events, and whether every message was accepted. A message that is not
/// accepted stays in the input.
pub open spec fn drained(input: Seq<u8>, state: ClientState) -> (
    Seq<u8>,
    ClientState,
    Seq<VncInputEvent>,
    Result<(), VncError>,
)
    decreases input.len(),
{
    match message_size(input) {
        Err(error) => (input, state, Seq::empty(), Err(error)),
        Ok(None) => (input, state, Seq::empty(), Ok(())),
        Ok(Some(size)) => if size == 0 || input.len() < size {
            (input, state, Seq::empty(), Ok(()))
        } else {
            let (state2, events, result) = after_message(state, input.take(size as int));
            match result {
                Err(error) => (input, state2, events, Err(error)),
                Ok(()) => {
                    let (input3, state3, events3, result3) = drained(
                        input.skip(size as int),
                        state2,
                    );
                    (input3, state3, events + events3, result3)
                },
            }
        },
    }
}

/// Handles every complete message in the input buffer.
pub fn drain_client_input(
    input_buffer: &mut Vec<u8>,
    events: &mut Vec<VncInputEvent>,
    client_state: &mut ClientState,
) -> (r: Result<(), VncError>)
    ensures
        ({
            let (input, state, added, result) = drained(old(input_buffer)@, *old(client_state));
            &&& final(input_buffer)@ == input
            &&& *final(client_state) == state
            &&& final(events)@ == old(events)@ + added
            &&& r == result
        }),
{
    let ghost whole = input_buffer@;
    assert(events@ =~= old(events)@ + Seq::<VncInputEvent>::empty());
    loop
        invariant
            whole == old(input_buffer)@,
            ({
                let (input, state, added, result) = drained(whole, *old(client_state));
                let (input2, state2, added2, result2) = drained(input_buffer@, *client_state);
                &&& input == input2
                &&& state == state2
                &&& old(events)@ + added == events@ + added2
                &&& result == result2
            }),
        decreases input_buffer@.len(),
    {
        assert(events@ + Seq::<VncInputEvent>::empty() =~= events@);
        let size: usize = match client_message_size(input_buffer) {
            Ok(Some(size)) => size,
            Ok(None) => {
                return Ok(());
            },
            Err(error) => {
                return Err(error);
            },
        };
        if input_buffer.len() < size {
            return Ok(());
        }
        let ghost before = input_buffer@;
        let ghost earlier = events@;
        proof {
            lemma_message_size_of_prefix(before, size as nat);
        }
        let message = range_of(input_buffer, 0, size);
        assert(message@ =~= before.take(size as int));
        if let Err(error) = handle_client_message(&message, events, client_state) {
            return Err(error);
        }
        let rest = range_of(input_buffer, size, input_buffer.len());
        assert(rest@ =~= before.skip(size as int));
        *input_buffer = rest;
        assert forall|a: Seq<VncInputEvent>, b: Seq<VncInputEvent>|
            #[trigger] (earlier + (a + b)) == earlier + a + b by {
            assert(earlier + (a + b) =~= earlier + a + b);
        }
    }
}

/// The size of a message is known from its own bytes, and is never zero.
proof fn lemma_message_size_of_prefix(input: Seq<u8>, size: nat)
    requires
        message_size(input) == Ok::<Option<nat>, VncError>(Some(size)),
        size <= input.len(),
    ensures
        size > 0,
        message_size(input.take(size as int)) == Ok::<Option<nat>, VncError>(Some(size)),
{
}

/// What one read of the connection gave.
pub enum SocketRead {
    Data(Vec<u8>),
    WouldBlock,
    Interrupted,
    Failed,
}

/// The same with the bytes as a sequence.
pub enum Received {
    Data(Seq<u8>),
    WouldBlock,
    Interrupted,
    Failed,
}

impl View for SocketRead {
    type V = Received;

    open spec fn view(&self) -> Received {
        match self {
            SocketRead::Data(bytes) => Received::Data(bytes@),
            SocketRead::WouldBlock => Received::WouldBlock,
            SocketRead::Interrupted => Received::Interrupted,
            SocketRead::Failed => Received::Failed,
        }
    }
}

/// The input buffer after one read, and whether to read again. A read without bytes is the
/// end of the connection.
pub open spec fn absorbed(input: Seq<u8>, read: Received) -> (Seq<u8>, Result<bool, VncError>) {
    match read {
        Received::WouldBlock => (input, Ok(false)),
        Received::Interrupted => (input, Ok(true)),
        Received::Failed => (input, Err(VncError::ReadFailed)),
        Received::Data(bytes) => if bytes.len() == 0 {
            (input, Err(VncError::Disconnected))
        } else if input.len() + bytes.len() > MAX_CLIENT_MESSAGE_SIZE {
            (input + bytes, Err(VncError::InputTooLarge))
        } else {
            (input + bytes, Ok(true))
        },
    }
}

/// Takes the outcome of one read. The result says whether to read again before the buffer
/// is drained.
pub fn absorb_read(input_buffer: &mut Vec<u8>, read: SocketRead) -> (r: Result<bool, VncError>)
    requires
        old(input_buffer)@.len() <= MAX_CLIENT_MESSAGE_SIZE,
    ensures
        (final(input_buffer)@, r) == absorbed(old(input_buffer)@, read@),
        r is Ok ==> final(input_buffer)@.len() <= MAX_CLIENT_MESSAGE_SIZE,
{
    match read {
        SocketRead::WouldBlock => Ok(false),
        SocketRead::Interrupted => Ok(true),
        SocketRead::Failed => Err(VncError::ReadFailed),
        SocketRead::Data(mut bytes) => {
            if bytes.len() == 0 {
                return Err(VncError::Disconnected);
            }
            input_buffer.append(&mut bytes);
            if input_buffer.len() > MAX_CLIENT_MESSAGE_SIZE {
                return Err(VncError::InputTooLarge);
            }
            Ok(true)
        },
    }
}

/// The input buffer after the reads of a connection up to the first that would block, how
/// many reads that took, and whether the connection is still good.
pub open spec fn collected(input: Seq<u8>, reads: Seq<SocketRead>, n: nat) -> (
    Seq<u8>,
    nat,
    Result<(), VncError>,
)
    decreases reads.len() - n,
{
    if n >= reads.len() {
        (input, n, Ok(()))
    } else {
        let (input2, result) = absorbed(input, reads[n as int]@);
        match result {
            Err(error) => (input2, n + 1, Err(error)),
            Ok(true) => collected(input2, reads, n + 1),
            Ok(false) => (input2, n + 1, Ok(())),
        }
    }
}

/// Reads what the connection has to offer, then handles every complete message. The end of
/// `reads` stands for a read that would block.
pub fn check_client_input(
    reads: &mut VecDeque<SocketRead>,
    events: &mut Vec<VncInputEvent>,
    input_buffer: &mut Vec<u8>,
    client_state: &mut ClientState,
) -> (r: Result<(), VncError>)
    requires
        old(input_buffer)@.len() <= MAX_CLIENT_MESSAGE_SIZE,
    ensures
        ({
            let (input, count, read) = collected(old(input_buffer)@, old(reads)@, 0);
            &&& final(reads)@ == old(reads)@.skip(count as int)
            &&& match read {
                Err(error) => r == Err::<(), VncError>(error) && final(input_buffer)@ == input
                    && *final(client_state) == *old(client_state) && final(events)@ == old(events)@,
                Ok(()) => {
                    let (left, state, added, result) = drained(input, *old(client_state));
                    &&& r == result
                    &&& final(input_buffer)@ == left
                    &&& *final(client_state) == state
                    &&& final(events)@ == old(events)@ + added
                },
            }
        }),
{
    let ghost all = reads@;
    let ghost mut count: nat = 0;
    assert(all.skip(0) =~= all);
    loop
        invariant_except_break
            collected(old(input_buffer)@, all, 0) == collected(input_buffer@, all, count),
        invariant
            all == old(reads)@,
            *client_state == *old(client_state),
            events@ == old(events)@,
            count <= all.len(),
            reads@ == all.skip(count as int),
            input_buffer@.len() <= MAX_CLIENT_MESSAGE_SIZE,
        ensures
            *client_state == *old(client_state),
            events@ == old(events)@,
            reads@ == all.skip(count as int),
            collected(old(input_buffer)@, all, 0) == (
                input_buffer@,
                count,
                Ok::<(), VncError>(()),
            ),
        decreases all.len() - count,
    {
        let ghost left = reads@;
        match reads.pop_front() {
            None => {
                assert(count == all.len());
                break ;
            },
            Some(read) => {
                assert(read == all[count as int]) by {
                    assert(left[0] == all.skip(count as int)[0]);
                }
                assert(reads@ =~= all.skip(count as int + 1));
                proof {
                    count = count + 1;
                }
                match absorb_read(input_buffer, read) {
                    Err(error) => {
                        return Err(error);
                    },
                    Ok(again) => {
                        if !again {
                            break ;
                        }
                    },
                }
            },
        }
    }
    drain_client_input(input_buffer, events, client_state)
}

/// Draining in two parts gives what draining at once gives: it does not matter how the
/// client's messages are cut into pieces on their way.
pub proof fn fragmentation_changes_nothing(first: Seq<u8>, second: Seq<u8>, state: ClientState)
    requires
        drained(first, state).3 is Ok,
    ensures
        ({
            let (left, state1, events1, _) = drained(first, state);
            let (left2, state2, events2, result2) = drained(left + second, state1);
            drained(first + second, state) == (left2, state2, events1 + events2, result2)
        }),
    decreases first.len(),
{
    let whole = first + second;
    match message_size(first) {
        Ok(Some(size)) if size != 0 && size <= first.len() => {
            assert(message_size(whole) == message_size(first));
            assert(whole.take(size as int) =~= first.take(size as int));
            assert(whole.skip(size as int) =~= first.skip(size as int) + second);
            let (state2, events, _) = after_message(state, first.take(size as int));
            fragmentation_changes_nothing(first.skip(size as int), second, state2);
            let (left, state3, events3, _) = drained(first.skip(size as int), state2);
            let (left4, state4, events4, result4) = drained(left + second, state3);
            assert(events + (events3 + events4) =~= events + events3 + events4);
        },
        _ => {
            let (left2, state2, events2, result2) = drained(whole, state);
            assert(Seq::<VncInputEvent>::empty() + events2 =~= events2);
        },
    }
}

/// A button event is sent for each of the five buttons whose state changed, and for no other.
pub proof fn only_changed_buttons_are_reported(changed: u8, mask: u8, n: nat)
    requires
        n <= 5,
    ensures
        forall|i: int|
            0 <= i < button_events(changed, mask, n).len() ==> (
            #[trigger] button_events(changed, mask, n)[i] matches VncInputEvent::MouseButton {
                button,
                down,
            } && button < n && changed & (1u8 << button) != 0 && down == (mask & (1u8 << button)
                != 0)),
        forall|b: u8|
            b < n && changed & (1u8 << b) != 0 ==> button_events(changed, mask, n).contains(
                #[trigger] button_change(b, mask),
            ),
    decreases n,
{
    if n != 0 {
        only_changed_buttons_are_reported(changed, mask, (n - 1) as nat);
        let before = button_events(changed, mask, (n - 1) as nat);
        let now = button_events(changed, mask, n);
        assert forall|b: u8| b < n && changed & (1u8 << b) != 0 implies now.contains(
            #[trigger] button_change(b, mask),
        ) by {
            if b < n - 1 {
                assert(before.contains(button_change(b, mask)));
                let k = choose|k: int| 0 <= k < before.len() && before[k] == button_change(b, mask);
                assert(now[k] == button_change(b, mask));
            } else {
                assert(now[now.len() - 1] == button_change(b, mask));
            }
        }
    }
}

/// The event of a button that changed.
pub open spec fn button_change(button: u8, mask: u8) -> VncInputEvent {
    VncInputEvent::MouseButton { button, down: mask & (1u8 << button) != 0 }
}

} // verus!
