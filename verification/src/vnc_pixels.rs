//! What a client sees of the framebuffer.
use vstd::prelude::*;

use crate::vnc::PixelFormat;

verus! {

/// The number that the bytes of a pixel hold, in the byte order of its format.
pub open spec fn pixel_number(bytes: Seq<u8>, format: PixelFormat) -> nat {
    if format.big_endian {
        crate::bytes::big_endian(bytes)
    } else {
        crate::bytes::little_endian(bytes)
    }
}

/// Whether `value` is `color`, a part of 255, as the nearest part of `maximum`.
pub open spec fn nearest(value: int, color: u8, maximum: u16) -> bool {
    -127 <= 255 * value - color * maximum <= 127
}

/// The field of a color in a pixel.
pub open spec fn field(number: nat, shift: u8, maximum: u16) -> u32 {
    ((number as u32) >> shift) & (maximum as u32)
}

/// Whether a largest value has all the bits of its field.
pub open spec fn fills_field(maximum: u16) -> bool {
    (maximum as u32) & ((maximum + 1) as u32) == 0
}

/// Whether the color fields of a format can hold every value up to their largest one.
pub open spec fn plain_fields(format: PixelFormat) -> bool {
    fills_field(format.red_max) && fills_field(format.green_max) && fills_field(format.blue_max)
}

/// Whether a field holds a color as the nearest part of its largest value. Of a field that
/// cannot hold every such value, the bits of the color are there.
pub open spec fn shows(number: nat, shift: u8, maximum: u16, color: u8, plain: bool) -> bool {
    exists|value: u32|
        {
            &&& nearest(value as int, color, maximum)
            &&& #[trigger] (((number as u32) >> shift) & value) == value
            &&& plain ==> field(number, shift, maximum) == value
        }
}

proof fn lemma_plain_fields(
    r: u32,
    g: u32,
    b: u32,
    rm: u32,
    gm: u32,
    bm: u32,
    rs: u8,
    gs: u8,
    bs: u8,
)
    by (bit_vector)
    requires
        rs < 32,
        gs < 32,
        bs < 32,
        rm <= 0xffff,
        gm <= 0xffff,
        bm <= 0xffff,
        r <= rm,
        g <= gm,
        b <= bm,
        rm & (rm + 1) as u32 == 0,
        gm & (gm + 1) as u32 == 0,
        bm & (bm + 1) as u32 == 0,
        ((rm as u64) << rs) & ((gm as u64) << gs) == 0,
        ((rm as u64) << rs) & ((bm as u64) << bs) == 0,
        ((rm as u64) << rs) <= 0xffff_ffff,
    ensures
        (((r << rs) | (g << gs) | (b << bs)) >> rs) & rm == r,
{
}

proof fn lemma_bits_set(r: u32, others: u32, rm: u32, rs: u8)
    by (bit_vector)
    requires
        rs < 32,
        rm <= 0xffff,
        r <= rm,
        ((rm as u64) << rs) <= 0xffff_ffff,
    ensures
        (((r << rs) | others) >> rs) & r == r,
{
}

proof fn lemma_value_bounded(r: u32, g: u32, b: u32, rm: u32, gm: u32, bm: u32, rs: u8, gs: u8, bs: u8, mask: u64)
    by (bit_vector)
    requires
        rs < 32,
        gs < 32,
        bs < 32,
        rm <= 0xffff,
        gm <= 0xffff,
        bm <= 0xffff,
        r <= rm,
        g <= gm,
        b <= bm,
        mask == 0xff || mask == 0xffff || mask == 0xffff_ffff,
        ((rm as u64) << rs) <= mask,
        ((gm as u64) << gs) <= mask,
        ((bm as u64) << bs) <= mask,
    ensures
        ((r << rs) | (g << gs) | (b << bs)) <= mask,
{
}

proof fn lemma_or_turns(a: u32, b: u32, c: u32)
    by (bit_vector)
    ensures
        a | b | c == b | (a | c),
        a | b | c == c | (a | b),
        a | b | c == a | (b | c),
        a | b | c == b | a | c,
        a | b | c == c | a | b,
{
}


proof fn lemma_scaled(color: u8, maximum: u16)
    ensures
        crate::vnc::scaled(color, maximum) <= maximum,
        nearest(crate::vnc::scaled(color, maximum) as int, color, maximum),
{
    let product = color * maximum;
    assert(0 <= product <= 255 * maximum) by (nonlinear_arith)
        requires
            product == color * maximum,
            0 <= color <= 255,
            0 <= maximum,
    ;
}

proof fn lemma_short_numbers(value: u32, width: int)
    requires
        width == 1 && value <= 0xff || width == 2 && value <= 0xffff || width == 4,
    ensures
        crate::bytes::little_endian(crate::bytes::le32_bytes(value).take(width)) == value,
        crate::bytes::big_endian(crate::bytes::be32_bytes(value).skip(4 - width)) == value,
{
    let little = crate::bytes::le32_bytes(value);
    let big = crate::bytes::be32_bytes(value);
    crate::bytes::le_bytes_hold_the_value(0, value, 0);
    crate::bytes::be_bytes_hold_the_value(0, value);
    assert(little.take(width) =~= little.subrange(0, width));
    assert(big.skip(4 - width) =~= big.subrange(4 - width, 4));
    assert(little.subrange(0, 4) =~= little);
    assert(big.subrange(0, 4) =~= big);
    if width == 1 {
        crate::bytes::lemma_number_step(little, 0, 1);
        crate::bytes::lemma_big_number_step(big, 3, 1);
        assert(crate::bytes::number_at(little, 1, 0) == 0);
    } else if width == 2 {
        crate::bytes::le16_is_a_number(little, 0);
        crate::bytes::be16_is_a_number(big, 2);
    }
}

proof fn lemma_pixel(blue: u8, green: u8, red: u8, format: PixelFormat)
    requires
        format.valid(),
        crate::vnc::writable_format(format),
    ensures
        ({
            let bytes = crate::vnc::pixel_bytes(blue, green, red, format);
            let number = pixel_number(bytes, format);
            let plain = plain_fields(format);
            &&& bytes.len() == format.bits_per_pixel / 8
            &&& shows(number, format.red_shift, format.red_max, red, plain)
            &&& shows(number, format.green_shift, format.green_max, green, plain)
            &&& shows(number, format.blue_shift, format.blue_max, blue, plain)
        }),
{
    let r = crate::vnc::scaled(red, format.red_max);
    let g = crate::vnc::scaled(green, format.green_max);
    let b = crate::vnc::scaled(blue, format.blue_max);
    let (rm, gm, bm) = (format.red_max as u32, format.green_max as u32, format.blue_max as u32);
    let (rs, gs, bs) = (format.red_shift, format.green_shift, format.blue_shift);
    lemma_scaled(red, format.red_max);
    lemma_scaled(green, format.green_max);
    lemma_scaled(blue, format.blue_max);
    let value = crate::vnc::pixel_value(blue, green, red, format);
    let mask = crate::vnc::pixel_mask(format.bits_per_pixel);
    lemma_value_bounded(r, g, b, rm, gm, bm, rs, gs, bs, mask);
    lemma_short_numbers(value, format.bits_per_pixel as int / 8);
    let number = pixel_number(crate::vnc::pixel_bytes(blue, green, red, format), format);
    assert(number == value);
    lemma_or_turns(r << rs, g << gs, b << bs);
    lemma_bits_set(r, (g << gs) | (b << bs), rm, rs);
    lemma_bits_set(g, (r << rs) | (b << bs), gm, gs);
    lemma_bits_set(b, (r << rs) | (g << gs), bm, bs);
    if plain_fields(format) {
        lemma_masks_turn((rm as u64) << rs, (gm as u64) << gs);
        lemma_masks_turn((rm as u64) << rs, (bm as u64) << bs);
        lemma_masks_turn((gm as u64) << gs, (bm as u64) << bs);
        lemma_plain_fields(r, g, b, rm, gm, bm, rs, gs, bs);
        lemma_plain_fields(g, r, b, gm, rm, bm, gs, rs, bs);
        lemma_plain_fields(b, r, g, bm, rm, gm, bs, rs, gs);
    }
    assert(((number as u32) >> rs) & r == r);
    assert(((number as u32) >> gs) & g == g);
    assert(((number as u32) >> bs) & b == b);
}

proof fn lemma_masks_turn(a: u64, b: u64)
    by (bit_vector)
    ensures
        a & b == b & a,
{
}

proof fn lemma_copied_pixel(n: u32, b: u8, g: u8, r: u8, x: u8)
    by (bit_vector)
    requires
        n == (b as u32) + 0x100 * (g as u32) + 0x1_0000 * (r as u32) + 0x100_0000 * (x as u32),
    ensures
        (n >> 16u8) & 255 == r,
        (n >> 8u8) & 255 == g,
        (n >> 0u8) & 255 == b,
        (n >> 16u8) & (r as u32) == r,
        (n >> 8u8) & (g as u32) == g,
        (n >> 0u8) & (b as u32) == b,
{
}

/// The first bytes of a sequence of pixels are its first pixels.
proof fn lemma_converted(source: Seq<u8>, format: PixelFormat, n: nat, i: int)
    requires
        format.valid(),
        crate::vnc::writable_format(format),
        0 <= i < n,
        4 * n <= source.len(),
    ensures
        ({
            let width = format.bits_per_pixel as int / 8;
            let sent = crate::vnc::converted(source, format, n);
            &&& sent.len() == n * width
            &&& sent.subrange(i * width, (i + 1) * width) == crate::vnc::pixel_bytes(
                source[4 * i],
                source[4 * i + 1],
                source[4 * i + 2],
                format,
            )
        }),
    decreases n,
{
    let width = format.bits_per_pixel as int / 8;
    let k = n - 1;
    let before = crate::vnc::converted(source, format, k as nat);
    let last = crate::vnc::pixel_bytes(
        source[4 * k],
        source[4 * k + 1],
        source[4 * k + 2],
        format,
    );
    lemma_pixel(source[4 * k], source[4 * k + 1], source[4 * k + 2], format);
    if k > 0 {
        lemma_converted(
            source,
            format,
            k as nat,
            if i < k {
                i
            } else {
                0
            },
        );
    }
    assert(n * width == k * width + width) by (nonlinear_arith)
        requires
            n == k + 1,
    ;
    assert(k == 0 ==> k * width == 0) by (nonlinear_arith);
    if i < k {
        assert(0 <= i * width && (i + 1) * width <= k * width && (i + 1) * width == i * width
            + width) by (nonlinear_arith)
            requires
                0 <= i,
                i + 1 <= k,
                width >= 0,
        ;
        assert((before + last).subrange(i * width, (i + 1) * width) =~= before.subrange(
            i * width,
            (i + 1) * width,
        ));
    } else {
        assert((i + 1) * width == k * width + width) by (nonlinear_arith)
            requires
                i == k,
        ;
        assert((before + last).subrange(k * width, k * width + width) =~= last);
    }
}

/// Every pixel of a row is sent in the format of the client: the number that its bytes hold, in
/// the byte order of the format, has each color in its field, as the nearest part of the largest
/// value of the field. This holds of every format that a client may select and that can be
/// drawn.
pub proof fn each_pixel_shows_its_colors(source: Seq<u8>, format: PixelFormat, i: int)
    requires
        format.valid(),
        crate::vnc::writable_format(format),
        0 <= i,
        4 * i + 4 <= source.len(),
    ensures
        ({
            let width = format.bits_per_pixel as int / 8;
            let sent = crate::vnc::pixels(source, format);
            let number = pixel_number(sent.subrange(i * width, (i + 1) * width), format);
            let plain = plain_fields(format);
            &&& 0 <= i * width
            &&& (i + 1) * width <= sent.len()
            &&& shows(number, format.red_shift, format.red_max, source[4 * i + 2], plain)
            &&& shows(number, format.green_shift, format.green_max, source[4 * i + 1], plain)
            &&& shows(number, format.blue_shift, format.blue_max, source[4 * i], plain)
        }),
{
    let width = format.bits_per_pixel as int / 8;
    let sent = crate::vnc::pixels(source, format);
    if format == crate::vnc::xrgb8888() {
        let bytes = source.subrange(4 * i, 4 * i + 4);
        let (b, g, r, x) = (
            source[4 * i],
            source[4 * i + 1],
            source[4 * i + 2],
            source[4 * i + 3],
        );
        assert(i * width == 4 * i && (i + 1) * width == 4 * i + 4) by (nonlinear_arith)
            requires
                width == 4,
        ;
        assert(sent.subrange(i * width, (i + 1) * width) =~= bytes);
        crate::bytes::lemma_number_step(bytes, 0, 4);
        crate::bytes::lemma_number_step(bytes, 1, 3);
        crate::bytes::lemma_number_step(bytes, 2, 2);
        crate::bytes::lemma_number_step(bytes, 3, 1);
        assert(crate::bytes::number_at(bytes, 4, 0) == 0);
        assert(bytes.subrange(0, 4) =~= bytes);
        let number = pixel_number(bytes, format);
        assert(number == b + 0x100 * g + 0x1_0000 * r + 0x100_0000 * x);
        lemma_copied_pixel(number as u32, b, g, r, x);
        assert(nearest(r as int, r, 255) && nearest(g as int, g, 255) && nearest(b as int, b, 255));
        assert(((number as u32) >> 16u8) & (r as u32) == r as u32);
        assert(((number as u32) >> 8u8) & (g as u32) == g as u32);
        assert(((number as u32) >> 0u8) & (b as u32) == b as u32);
    } else {
        let n = source.len() / 4;
        lemma_converted(source, format, n, i);
        lemma_pixel(source[4 * i], source[4 * i + 1], source[4 * i + 2], format);
        assert((i + 1) * width <= n * width && 0 <= i * width) by (nonlinear_arith)
            requires
                0 <= i,
                i + 1 <= n,
                width >= 0,
        ;
    }
}

proof fn lemma_row(source: Seq<u8>, format: PixelFormat, n: nat, x: int)
    requires
        format.valid(),
        crate::vnc::writable_format(format),
        0 <= x < n,
        source.len() == 4 * n,
    ensures
        ({
            let width = format.bits_per_pixel as int / 8;
            let row = crate::vnc::pixels(source, format);
            &&& row.len() == n * width
            &&& row.subrange(x * width, (x + 1) * width) == crate::vnc::pixels(
                source.subrange(4 * x, 4 * x + 4),
                format,
            )
        }),
{
    let width = format.bits_per_pixel as int / 8;
    let row = crate::vnc::pixels(source, format);
    let one = source.subrange(4 * x, 4 * x + 4);
    if format == crate::vnc::xrgb8888() {
        assert(x * width == 4 * x && (x + 1) * width == 4 * x + 4 && n * width == 4 * n)
            by (nonlinear_arith)
            requires
                width == 4,
        ;
        assert(row.subrange(x * width, (x + 1) * width) =~= one);
    } else {
        lemma_converted(source, format, n, x);
        lemma_converted(one, format, 1, 0);
        let alone = crate::vnc::converted(one, format, 1);
        assert(1 * width == width && 0 * width == 0 && (0 + 1) * width == width) by (nonlinear_arith);
        assert(alone.subrange(0, width) =~= alone);
    }
}

proof fn lemma_rows(
    data: Seq<u8>,
    width: u32,
    stride: u32,
    format: PixelFormat,
    n: nat,
    x: int,
    y: int,
)
    requires
        format.valid(),
        crate::vnc::writable_format(format),
        0 <= x < width,
        0 <= y < n,
        4 * width <= stride,
        stride * n <= data.len(),
    ensures
        ({
            let size = format.bits_per_pixel as int / 8;
            let sent = crate::vnc::rows(data, width, stride, format, n);
            let at = y * (width * size) + x * size;
            &&& sent.len() == n * (width * size)
            &&& 0 <= at && at + size <= sent.len()
            &&& sent.subrange(at, at + size) == crate::vnc::pixels(
                data.subrange(y * stride + 4 * x, y * stride + 4 * x + 4),
                format,
            )
        }),
    decreases n,
{
    let size = format.bits_per_pixel as int / 8;
    let k = n - 1;
    let row_size = width * size;
    let before = crate::vnc::rows(data, width, stride, format, k as nat);
    let start = k * stride;
    let at = y * row_size + x * size;
    assert(start + stride == stride * n && 0 <= start) by (nonlinear_arith)
        requires
            start == k * stride,
            k == n - 1,
            k >= 0,
            stride >= 0,
    ;
    let source = data.subrange(start, start + 4 * width);
    let row = crate::vnc::pixels(source, format);
    lemma_row(source, format, width as nat, x);
    assert(stride * k <= stride * n) by (nonlinear_arith)
        requires
            k == n - 1,
            stride >= 0,
    ;
    if k > 0 {
        lemma_rows(
            data,
            width,
            stride,
            format,
            k as nat,
            x,
            if y < k {
                y
            } else {
                0
            },
        );
    }
    assert(n * row_size == k * row_size + row_size && 0 <= x * size && (x + 1) * size == x * size
        + size && x * size + size <= row_size && row_size >= 0 && y * row_size >= 0)
        by (nonlinear_arith)
        requires
            n == k + 1,
            0 <= x < width,
            0 <= y,
            size >= 0,
            row_size == width * size,
    ;
    assert(k == 0 ==> k * row_size == 0) by (nonlinear_arith);
    if y < k {
        assert(y * row_size + row_size <= k * row_size) by (nonlinear_arith)
            requires
                y + 1 <= k,
                row_size >= 0,
        ;
        assert((before + row).subrange(at, at + size) =~= before.subrange(at, at + size));
    } else {
        assert(y == k);
        assert((before + row).subrange(at, at + size) =~= row.subrange(x * size, x * size + size));
        assert(source.subrange(4 * x, 4 * x + 4) =~= data.subrange(
            start + 4 * x,
            start + 4 * x + 4,
        ));
    }
}

/// An update shows the whole framebuffer: after its header come the pixels, row by row, each
/// with the colors of the four bytes that the framebuffer holds for its place.
pub proof fn an_update_shows_every_pixel(
    data: Seq<u8>,
    width: u32,
    height: u32,
    stride: u32,
    format: PixelFormat,
    x: int,
    y: int,
)
    requires
        format.valid(),
        crate::vnc::writable_format(format),
        0 <= x < width,
        0 <= y < height,
        4 * width <= stride,
        stride * height <= data.len(),
    ensures
        ({
            let size = format.bits_per_pixel as int / 8;
            let message = crate::vnc::update_header(width, height) + crate::vnc::rows(
                data,
                width,
                stride,
                format,
                height as nat,
            );
            let at = 16 + (y * width + x) * size;
            let number = pixel_number(message.subrange(at, at + size), format);
            let from = y * stride + 4 * x;
            let plain = plain_fields(format);
            &&& message.len() == 16 + width * height * size
            &&& 16 <= at && at + size <= message.len()
            &&& shows(number, format.red_shift, format.red_max, data[from + 2], plain)
            &&& shows(number, format.green_shift, format.green_max, data[from + 1], plain)
            &&& shows(number, format.blue_shift, format.blue_max, data[from], plain)
        }),
{
    let size = format.bits_per_pixel as int / 8;
    let header = crate::vnc::update_header(width, height);
    let sent = crate::vnc::rows(data, width, stride, format, height as nat);
    let message = header + sent;
    let from = y * stride + 4 * x;
    let one = data.subrange(from, from + 4);
    assert(stride * height == stride * (height as nat));
    lemma_rows(data, width, stride, format, height as nat, x, y);
    let inner = y * (width * size) + x * size;
    assert(inner == (y * width + x) * size && height * (width * size) == width * height * size)
        by (nonlinear_arith)
        requires
            inner == y * (width * size) + x * size,
    ;
    assert(message.subrange(16 + inner, 16 + inner + size) =~= sent.subrange(inner, inner + size));
    assert(0 <= from && from + 4 <= data.len()) by (nonlinear_arith)
        requires
            from == y * stride + 4 * x,
            0 <= x < width,
            0 <= y < height,
            4 * width <= stride,
            stride * height <= data.len(),
    ;
    each_pixel_shows_its_colors(one, format, 0);
    let alone = crate::vnc::pixels(one, format);
    assert(0 * size == 0 && (0 + 1) * size == size) by (nonlinear_arith);
    assert(alone.len() == size);
    assert(alone.subrange(0, size) =~= alone);
}

/// The header of an update: message 0 with one rectangle at the origin, with the width and the
/// height of the framebuffer, and raw pixels.
pub proof fn an_update_covers_the_framebuffer(width: u32, height: u32)
    requires
        width <= 0xffff,
        height <= 0xffff,
    ensures
        ({
            let header = crate::vnc::update_header(width, height);
            &&& header.len() == 16
            &&& header[0] == 0
            &&& crate::bytes::big_number_at(header, 2, 2) == 1
            &&& crate::bytes::big_number_at(header, 4, 2) == 0
            &&& crate::bytes::big_number_at(header, 6, 2) == 0
            &&& crate::bytes::big_number_at(header, 8, 2) == width
            &&& crate::bytes::big_number_at(header, 10, 2) == height
            &&& crate::bytes::big_number_at(header, 12, 4) == 0
        }),
{
    let header = crate::vnc::update_header(width, height);
    crate::bytes::be16_is_a_number(header, 2);
    crate::bytes::be16_is_a_number(header, 4);
    crate::bytes::be16_is_a_number(header, 6);
    crate::bytes::be32_is_a_number(header, 12);
    crate::bytes::be_bytes_hold_the_value(width as u16, 0);
    crate::bytes::be_bytes_hold_the_value(height as u16, 0);
    assert(header.subrange(8, 10) =~= crate::bytes::be16_bytes(width as u16));
    assert(header.subrange(10, 12) =~= crate::bytes::be16_bytes(height as u16));
}

proof fn lemma_side_by_side(low: u64, middle: u64, high: u64, first: u64, second: u64)
    by (bit_vector)
    requires
        first <= second < 32,
        low <= 0xffff,
        middle <= 0xffff,
        high <= 0xffff,
        low < (1u64 << first),
        (middle << first) < (1u64 << second),
    ensures
        low << 0u64 == low,
        low & (middle << first) == 0,
        low & (high << second) == 0,
        (middle << first) & (high << second) == 0,
        (middle << first) & low == 0,
        (high << second) & low == 0,
        (high << second) & (middle << first) == 0,
{
}

proof fn lemma_shifted(maximum: u16, shift: u8)
    requires
        shift < 32,
    ensures
        crate::vnc::field_mask(maximum, shift) == maximum * vstd::arithmetic::power2::pow2(
            shift as nat,
        ),
        1u64 << (shift as u64) == vstd::arithmetic::power2::pow2(shift as nat),
        crate::vnc::field_mask(maximum, shift) == (maximum as u64) << (shift as u64),
{
    let power = vstd::arithmetic::power2::pow2(shift as nat);
    vstd::arithmetic::power2::lemma2_to64();
    vstd::arithmetic::power2::lemma_pow2_strictly_increases(shift as nat, 32);
    assert(maximum * power <= 0xffff * 0x1_0000_0000) by (nonlinear_arith)
        requires
            maximum <= 0xffff,
            0 <= power <= 0x1_0000_0000,
    ;
    vstd::bits::lemma_u64_shl_is_mul(maximum as u64, shift as u64);
    vstd::bits::lemma_u64_shl_is_mul(1, shift as u64);
}

/// A format is accepted where its colors lie side by side inside the pixel: the first below
/// `2 ^ first`, the second between that and `2 ^ second`, the third between that and the end of
/// the pixel. Red may be the highest color or the lowest.
pub proof fn colors_side_by_side_are_accepted(format: PixelFormat, red_first: bool)
    requires
        format.bits_per_pixel == 8 || format.bits_per_pixel == 16 || format.bits_per_pixel == 32,
        0 < format.depth <= format.bits_per_pixel,
        format.red_max > 0,
        format.green_max > 0,
        format.blue_max > 0,
        ({
            let (low, high) = if red_first {
                (format.red_max, format.blue_max)
            } else {
                (format.blue_max, format.red_max)
            };
            let (start, second) = if red_first {
                (format.red_shift, format.blue_shift)
            } else {
                (format.blue_shift, format.red_shift)
            };
            let first = format.green_shift;
            &&& start == 0
            &&& first <= second < format.bits_per_pixel
            &&& low < vstd::arithmetic::power2::pow2(first as nat)
            &&& format.green_max * vstd::arithmetic::power2::pow2(first as nat)
                < vstd::arithmetic::power2::pow2(second as nat)
            &&& high * vstd::arithmetic::power2::pow2(second as nat)
                < vstd::arithmetic::power2::pow2(format.bits_per_pixel as nat)
        }),
    ensures
        format.valid(),
{
    let (low, high) = if red_first {
        (format.red_max, format.blue_max)
    } else {
        (format.blue_max, format.red_max)
    };
    let second = if red_first {
        format.blue_shift
    } else {
        format.red_shift
    };
    let first = format.green_shift;
    lemma_shifted(low, 0);
    lemma_shifted(low, first);
    lemma_shifted(format.green_max, first);
    lemma_shifted(high, second);
    vstd::arithmetic::power2::lemma2_to64();
    vstd::arithmetic::power2::lemma_pow2_strictly_increases(
        second as nat,
        format.bits_per_pixel as nat,
    );
    if first < second {
        vstd::arithmetic::power2::lemma_pow2_strictly_increases(first as nat, second as nat);
    }
    lemma_side_by_side(
        low as u64,
        format.green_max as u64,
        high as u64,
        first as u64,
        second as u64,
    );
}

} // verus!
