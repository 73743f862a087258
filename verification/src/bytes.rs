//! Fixed-width integers as byte sequences, and copies of byte ranges.
use vstd::prelude::*;

verus! {

/// The little-endian 16-bit value that starts at byte `at`.
pub open spec fn le16(s: Seq<u8>, at: int) -> u16 {
    (s[at] + 0x100 * s[at + 1]) as u16
}

/// The little-endian 32-bit value that starts at byte `at`.
pub open spec fn le32(s: Seq<u8>, at: int) -> u32 {
    (le16(s, at) + 0x1_0000 * le16(s, at + 2)) as u32
}

/// The little-endian 64-bit value that starts at byte `at`.
pub open spec fn le64(s: Seq<u8>, at: int) -> u64 {
    (le32(s, at) + 0x1_0000_0000 * le32(s, at + 4)) as u64
}

/// The big-endian 16-bit value that starts at byte `at`.
pub open spec fn be16(s: Seq<u8>, at: int) -> u16 {
    (0x100 * s[at] + s[at + 1]) as u16
}

/// The big-endian 32-bit value that starts at byte `at`.
pub open spec fn be32(s: Seq<u8>, at: int) -> u32 {
    (0x1_0000 * be16(s, at) + be16(s, at + 2)) as u32
}

/// The big-endian 64-bit value that starts at byte `at`.
pub open spec fn be64(s: Seq<u8>, at: int) -> u64 {
    (0x1_0000_0000 * be32(s, at) + be32(s, at + 4)) as u64
}

/// The two bytes of `x`, least significant first.
pub open spec fn le16_bytes(x: u16) -> Seq<u8> {
    seq![(x % 0x100) as u8, (x / 0x100) as u8]
}

/// The four bytes of `x`, least significant first.
pub open spec fn le32_bytes(x: u32) -> Seq<u8> {
    seq![
        (x % 0x100) as u8,
        (x / 0x100 % 0x100) as u8,
        (x / 0x1_0000 % 0x100) as u8,
        (x / 0x100_0000) as u8,
    ]
}

/// The eight bytes of `x`, least significant first.
pub open spec fn le64_bytes(x: u64) -> Seq<u8> {
    le32_bytes((x % 0x1_0000_0000) as u32) + le32_bytes((x / 0x1_0000_0000) as u32)
}

/// The two bytes of `x`, most significant first.
pub open spec fn be16_bytes(x: u16) -> Seq<u8> {
    seq![(x / 0x100) as u8, (x % 0x100) as u8]
}

/// The four bytes of `x`, most significant first.
pub open spec fn be32_bytes(x: u32) -> Seq<u8> {
    seq![
        (x / 0x100_0000) as u8,
        (x / 0x1_0000 % 0x100) as u8,
        (x / 0x100 % 0x100) as u8,
        (x % 0x100) as u8,
    ]
}

/// A sequence of `n` zero bytes.
pub open spec fn zeros(n: nat) -> Seq<u8> {
    Seq::new(n, |i: int| 0u8)
}

/// `s` with the bytes from `at` on replaced by `part`.
pub open spec fn overlay(s: Seq<u8>, at: int, part: Seq<u8>) -> Seq<u8> {
    Seq::new(
        s.len(),
        |i: int|
            if at <= i < at + part.len() {
                part[i - at]
            } else {
                s[i]
            },
    )
}

/// Writing a 16-bit value and reading it back gives the value.
pub proof fn le16_round_trip(x: u16)
    ensures
        le16(le16_bytes(x), 0) == x,
{
}

/// Writing a 32-bit value and reading it back gives the value.
pub proof fn le32_round_trip(x: u32)
    ensures
        le32(le32_bytes(x), 0) == x,
{
    let b = le32_bytes(x);
    assert(le16(b, 0) == x % 0x1_0000);
    assert(le16(b, 2) == x / 0x1_0000);
}

/// Writing a 64-bit value and reading it back gives the value.
pub proof fn le64_round_trip(x: u64)
    ensures
        le64(le64_bytes(x), 0) == x,
{
    let lo = (x % 0x1_0000_0000) as u32;
    let hi = (x / 0x1_0000_0000) as u32;
    let b = le64_bytes(x);
    le32_round_trip(lo);
    le32_round_trip(hi);
    assert(le16(b, 0) == le16(le32_bytes(lo), 0) && le16(b, 2) == le16(le32_bytes(lo), 2));
    assert(le16(b, 4) == le16(le32_bytes(hi), 0) && le16(b, 6) == le16(le32_bytes(hi), 2));
}

/// Writing a 32-bit value most significant byte first and reading it back gives the value.
pub proof fn be32_round_trip(x: u32)
    ensures
        be32(be32_bytes(x), 0) == x,
{
    let b = be32_bytes(x);
    assert(be16(b, 0) == x / 0x1_0000);
    assert(be16(b, 2) == x % 0x1_0000);
}

pub fn get_le16(s: &[u8], at: usize) -> (r: u16)
    requires
        at + 2 <= s.len(),
    ensures
        r == le16(s@, at as int),
{
    s[at] as u16 + 0x100 * (s[at + 1] as u16)
}

pub fn get_le32(s: &[u8], at: usize) -> (r: u32)
    requires
        at + 4 <= s.len(),
    ensures
        r == le32(s@, at as int),
{
    get_le16(s, at) as u32 + 0x1_0000 * (get_le16(s, at + 2) as u32)
}

pub fn get_le64(s: &[u8], at: usize) -> (r: u64)
    requires
        at + 8 <= s.len(),
    ensures
        r == le64(s@, at as int),
{
    get_le32(s, at) as u64 + 0x1_0000_0000 * (get_le32(s, at + 4) as u64)
}

pub fn get_be16(s: &[u8], at: usize) -> (r: u16)
    requires
        at + 2 <= s.len(),
    ensures
        r == be16(s@, at as int),
{
    0x100 * (s[at] as u16) + s[at + 1] as u16
}

pub fn get_be32(s: &[u8], at: usize) -> (r: u32)
    requires
        at + 4 <= s.len(),
    ensures
        r == be32(s@, at as int),
{
    0x1_0000 * (get_be16(s, at) as u32) + get_be16(s, at + 2) as u32
}

pub fn get_be64(s: &[u8], at: usize) -> (r: u64)
    requires
        at + 8 <= s.len(),
    ensures
        r == be64(s@, at as int),
{
    0x1_0000_0000 * (get_be32(s, at) as u64) + get_be32(s, at + 4) as u64
}

pub fn push_le16(v: &mut Vec<u8>, x: u16)
    ensures
        final(v)@ == old(v)@ + le16_bytes(x),
{
    v.push((x % 0x100) as u8);
    v.push((x / 0x100) as u8);
}

pub fn push_le32(v: &mut Vec<u8>, x: u32)
    ensures
        final(v)@ == old(v)@ + le32_bytes(x),
{
    v.push((x % 0x100) as u8);
    v.push((x / 0x100 % 0x100) as u8);
    v.push((x / 0x1_0000 % 0x100) as u8);
    v.push((x / 0x100_0000) as u8);
}

pub fn push_le64(v: &mut Vec<u8>, x: u64)
    ensures
        final(v)@ == old(v)@ + le64_bytes(x),
{
    push_le32(v, (x % 0x1_0000_0000) as u32);
    push_le32(v, (x / 0x1_0000_0000) as u32);
}

pub fn push_be16(v: &mut Vec<u8>, x: u16)
    ensures
        final(v)@ == old(v)@ + be16_bytes(x),
{
    v.push((x / 0x100) as u8);
    v.push((x % 0x100) as u8);
}

pub fn push_be32(v: &mut Vec<u8>, x: u32)
    ensures
        final(v)@ == old(v)@ + be32_bytes(x),
{
    v.push((x / 0x100_0000) as u8);
    v.push((x / 0x1_0000 % 0x100) as u8);
    v.push((x / 0x100 % 0x100) as u8);
    v.push((x % 0x100) as u8);
}

/// Appends the bytes `s[from..to]` to `v`.
pub fn push_range(v: &mut Vec<u8>, s: &[u8], from: usize, to: usize)
    requires
        from <= to <= s@.len(),
    ensures
        final(v)@ == old(v)@ + s@.subrange(from as int, to as int),
{
    let mut i: usize = from;
    while i < to
        invariant
            from <= i <= to <= s@.len(),
            v@ == old(v)@ + s@.subrange(from as int, i as int),
        decreases to - i,
    {
        v.push(s[i]);
        i = i + 1;
    }
}

/// Appends `n` zero bytes to `v`.
pub fn push_zeros(v: &mut Vec<u8>, n: usize)
    ensures
        final(v)@ == old(v)@ + zeros(n as nat),
{
    let mut i: usize = 0;
    while i < n
        invariant
            i <= n,
            v@ == old(v)@ + zeros(i as nat),
        decreases n - i,
    {
        v.push(0);
        i = i + 1;
    }
}

/// The bytes `s[from..to]`.
pub fn range_of(s: &[u8], from: usize, to: usize) -> (r: Vec<u8>)
    requires
        from <= to <= s@.len(),
    ensures
        r@ == s@.subrange(from as int, to as int),
{
    let mut v: Vec<u8> = Vec::new();
    push_range(&mut v, s, from, to);
    v
}

/// `n` zero bytes.
pub fn zeroed(n: usize) -> (r: Vec<u8>)
    ensures
        r@ == zeros(n as nat),
{
    let mut v: Vec<u8> = Vec::new();
    push_zeros(&mut v, n);
    v
}

/// Replaces the bytes of `v` from `at` on by `part`.
pub fn overwrite(v: &mut Vec<u8>, at: usize, part: &[u8])
    requires
        at + part@.len() <= old(v).len(),
    ensures
        final(v)@ == overlay(old(v)@, at as int, part@),
{
    let mut i: usize = 0;
    while i < part.len()
        invariant
            i <= part@.len(),
            at + part@.len() <= v.len(),
            v@ == overlay(old(v)@, at as int, part@.take(i as int)),
        decreases part@.len() - i,
    {
        v.set(at + i, part[i]);
        i = i + 1;
        assert(v@ =~= overlay(old(v)@, at as int, part@.take(i as int)));
    }
    assert(part@.take(i as int) =~= part@);
}

/// Fills `data` with the bytes of `source` from `start` on.
pub fn fill_from(data: &mut [u8], source: &[u8], start: usize)
    requires
        start + old(data)@.len() <= source.len(),
    ensures
        final(data)@ == source@.subrange(start as int, start + old(data)@.len()),
{
    let length: usize = data.len();
    let mut i: usize = 0;
    while i < length
        invariant
            i <= length,
            length == data@.len(),
            start + length <= source.len(),
            data@.take(i as int) == source@.subrange(start as int, start + i),
        decreases length - i,
    {
        let ghost before = data@;
        data[i] = source[start + i];
        i = i + 1;
        assert(data@.take(i as int) =~= before.take(i - 1).push(source@[start + i - 1]));
        assert(source@.subrange(start as int, start + i) =~= source@.subrange(
            start as int,
            start + i - 1,
        ).push(source@[start + i - 1]));
    }
    assert(data@.take(i as int) =~= data@);
}

/// Whether two byte strings are equal.
pub fn same_bytes(a: &[u8], b: &[u8]) -> (r: bool)
    ensures
        r == (a@ == b@),
{
    if a.len() != b.len() {
        return false;
    }
    let mut i: usize = 0;
    while i < a.len()
        invariant
            i <= a@.len(),
            a@.len() == b@.len(),
            a@.take(i as int) == b@.take(i as int),
        decreases a@.len() - i,
    {
        if a[i] != b[i] {
            assert(a@[i as int] != b@[i as int]);
            return false;
        }
        i = i + 1;
        assert(a@.take(i as int) =~= a@.take(i - 1).push(a@[i - 1]));
        assert(b@.take(i as int) =~= b@.take(i - 1).push(b@[i - 1]));
    }
    assert(a@.take(i as int) =~= a@);
    assert(b@.take(i as int) =~= b@);
    true
}

/// The number that some bytes hold, least significant byte first.
pub open spec fn little_endian(s: Seq<u8>) -> nat
    decreases s.len(),
{
    if s.len() == 0 {
        0
    } else {
        (s[0] + 256 * little_endian(s.skip(1))) as nat
    }
}

/// The number that some bytes hold, most significant byte first.
pub open spec fn big_endian(s: Seq<u8>) -> nat
    decreases s.len(),
{
    if s.len() == 0 {
        0
    } else {
        (256 * big_endian(s.drop_last()) + s.last()) as nat
    }
}

/// The number in `count` bytes from `at` on, least significant byte first.
pub open spec fn number_at(s: Seq<u8>, at: int, count: int) -> nat {
    little_endian(s.subrange(at, at + count))
}

/// The number in `count` bytes from `at` on, most significant byte first.
pub open spec fn big_number_at(s: Seq<u8>, at: int, count: int) -> nat {
    big_endian(s.subrange(at, at + count))
}

pub proof fn lemma_number_step(s: Seq<u8>, at: int, count: int)
    requires
        0 <= at,
        0 < count,
        at + count <= s.len(),
    ensures
        number_at(s, at, count) == s[at] + 256 * number_at(s, at + 1, count - 1),
        number_at(s, at, 0) == 0,
{
    assert(s.subrange(at, at + count).skip(1) =~= s.subrange(at + 1, at + count));
}

pub proof fn lemma_big_number_step(s: Seq<u8>, at: int, count: int)
    requires
        0 <= at,
        0 < count,
        at + count <= s.len(),
    ensures
        big_number_at(s, at, count) == 256 * big_number_at(s, at, count - 1) + s[at + count - 1],
        big_number_at(s, at, 0) == 0,
{
    assert(s.subrange(at, at + count).drop_last() =~= s.subrange(at, at + count - 1));
}

/// The little-endian values are the numbers in their bytes.
pub proof fn le16_is_a_number(s: Seq<u8>, at: int)
    requires
        0 <= at,
        at + 2 <= s.len(),
    ensures
        le16(s, at) == number_at(s, at, 2),
{
    lemma_number_step(s, at, 2);
    lemma_number_step(s, at + 1, 1);
    assert(number_at(s, at + 2, 0) == 0);
}

/// The little-endian values are the numbers in their bytes.
pub proof fn le32_is_a_number(s: Seq<u8>, at: int)
    requires
        0 <= at,
        at + 4 <= s.len(),
    ensures
        le32(s, at) == number_at(s, at, 4),
{
    le16_is_a_number(s, at + 2);
    lemma_number_step(s, at, 4);
    lemma_number_step(s, at + 1, 3);
}

/// The little-endian values are the numbers in their bytes.
pub proof fn le64_is_a_number(s: Seq<u8>, at: int)
    requires
        0 <= at,
        at + 8 <= s.len(),
    ensures
        le64(s, at) == number_at(s, at, 8),
{
    le32_is_a_number(s, at + 4);
    lemma_number_step(s, at, 8);
    lemma_number_step(s, at + 1, 7);
    lemma_number_step(s, at + 2, 6);
    lemma_number_step(s, at + 3, 5);
}

/// The big-endian values are the numbers in their bytes.
pub proof fn be16_is_a_number(s: Seq<u8>, at: int)
    requires
        0 <= at,
        at + 2 <= s.len(),
    ensures
        be16(s, at) == big_number_at(s, at, 2),
{
    lemma_big_number_step(s, at, 2);
    lemma_big_number_step(s, at, 1);
}

/// The big-endian values are the numbers in their bytes.
pub proof fn be32_is_a_number(s: Seq<u8>, at: int)
    requires
        0 <= at,
        at + 4 <= s.len(),
    ensures
        be32(s, at) == big_number_at(s, at, 4),
{
    be16_is_a_number(s, at);
    lemma_big_number_step(s, at, 4);
    lemma_big_number_step(s, at, 3);
}

/// The big-endian values are the numbers in their bytes.
pub proof fn be64_is_a_number(s: Seq<u8>, at: int)
    requires
        0 <= at,
        at + 8 <= s.len(),
    ensures
        be64(s, at) == big_number_at(s, at, 8),
{
    be32_is_a_number(s, at);
    lemma_big_number_step(s, at, 8);
    lemma_big_number_step(s, at, 7);
    lemma_big_number_step(s, at, 6);
    lemma_big_number_step(s, at, 5);
}

/// The bytes of a value hold it, least significant byte first.
pub proof fn le_bytes_hold_the_value(x: u16, y: u32, z: u64)
    ensures
        le16_bytes(x).len() == 2 && little_endian(le16_bytes(x)) == x,
        le32_bytes(y).len() == 4 && little_endian(le32_bytes(y)) == y,
        le64_bytes(z).len() == 8 && little_endian(le64_bytes(z)) == z,
{
    let (a, b, c) = (le16_bytes(x), le32_bytes(y), le64_bytes(z));
    le16_round_trip(x);
    le32_round_trip(y);
    le64_round_trip(z);
    le16_is_a_number(a, 0);
    le32_is_a_number(b, 0);
    le64_is_a_number(c, 0);
    assert(a.subrange(0, 2) =~= a);
    assert(b.subrange(0, 4) =~= b);
    assert(c.subrange(0, 8) =~= c);
}

/// The bytes of a value hold it, most significant byte first.
pub proof fn be_bytes_hold_the_value(x: u16, y: u32)
    ensures
        be16_bytes(x).len() == 2 && big_endian(be16_bytes(x)) == x,
        be32_bytes(y).len() == 4 && big_endian(be32_bytes(y)) == y,
{
    let (a, b) = (be16_bytes(x), be32_bytes(y));
    be32_round_trip(y);
    be16_is_a_number(a, 0);
    be32_is_a_number(b, 0);
    assert(a.subrange(0, 2) =~= a);
    assert(b.subrange(0, 4) =~= b);
}

/// The bits of a byte, by the powers of two.
pub proof fn lemma_byte_bits(byte: u8)
    by (bit_vector)
    ensures
        byte & 1 == byte % 2,
        byte & 2 == 2 * (byte / 2 % 2),
        byte & 4 == 4 * (byte / 4 % 2),
        byte & 7 == byte % 8,
        byte & 0x40 == 64 * (byte / 64 % 2),
        byte & 0x7f == byte % 128,
        byte & 0x60 == 32 * (byte / 32 % 4),
        byte & 0x11 == byte % 2 + 16 * (byte / 16 % 2),
        byte & 0x22 == 2 * (byte / 2 % 2) + 32 * (byte / 32 % 2),
        byte & 0x80 == 128 * (byte / 128),
{
}

} // verus!
