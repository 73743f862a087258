//! The arguments of the framebuffer server.
use vstd::prelude::*;

use crate::framebuffer::DRM_FORMAT_XRGB8888;
use crate::vnc_server::VncListenerType;

verus! {

/// Why a string is not a number.
#[derive(Clone, Copy, Debug, PartialEq, Eq)]
pub enum NumberError {
    /// There is nothing to parse.
    Empty,
    /// A character is not a digit.
    InvalidDigit,
    /// The number is too large.
    Overflow,
}

/// Why a string names no listener.
#[derive(Clone, Copy, Debug, PartialEq, Eq)]
pub enum ListenerError {
    /// The path of the socket is empty.
    EmptyPath,
    /// The port is not a 16-bit number.
    InvalidPort(NumberError),
}

/// The value of a digit of a base up to sixteen.
pub open spec fn digit_value(c: char, radix: nat) -> Option<nat> {
    let value = if '0' <= c <= '9' {
        c as nat - '0' as nat
    } else if 'a' <= c <= 'f' {
        c as nat - 'a' as nat + 10
    } else if 'A' <= c <= 'F' {
        c as nat - 'A' as nat + 10
    } else {
        16
    };
    if value < radix {
        Some(value as nat)
    } else {
        None
    }
}

/// The number that digits stand for, read from the left; the first fault decides.
pub open spec fn digits_value(digits: Seq<char>, radix: nat, maximum: nat) -> Result<nat, NumberError>
    decreases digits.len(),
{
    if digits.len() == 0 {
        Ok(0)
    } else {
        match digits_value(digits.drop_last(), radix, maximum) {
            Err(error) => Err(error),
            Ok(value) => match digit_value(digits.last(), radix) {
                None => Err(NumberError::InvalidDigit),
                Some(digit) => if value * radix + digit > maximum {
                    Err(NumberError::Overflow)
                } else {
                    Ok(value * radix + digit)
                },
            },
        }
    }
}

/// The number that a string stands for. A plus sign may stand before the digits.
pub open spec fn number_value(text: Seq<char>, radix: nat, maximum: nat) -> Result<nat, NumberError> {
    if text.len() == 0 {
        Err(NumberError::Empty)
    } else if text.len() > 1 && text[0] == '+' {
        digits_value(text.skip(1), radix, maximum)
    } else {
        digits_value(text, radix, maximum)
    }
}

/// Whether a text begins with another.
pub open spec fn begins_with(text: Seq<char>, prefix: Seq<char>) -> bool {
    prefix.len() <= text.len() && text.take(prefix.len() as int) == prefix
}

/// A decimal number, or a hexadecimal one after "0x".
pub open spec fn u64_value(text: Seq<char>) -> Result<nat, NumberError> {
    if begins_with(text, "0x"@) {
        number_value(text.skip(2), 16, u64::MAX as nat)
    } else {
        number_value(text, 10, u64::MAX as nat)
    }
}

/// A letter in lower case.
pub open spec fn lowered(c: char) -> char {
    if 'A' <= c <= 'Z' {
        (c as u32 + 32) as char
    } else {
        c
    }
}

pub open spec fn lower_case(text: Seq<char>) -> Seq<char> {
    text.map_values(|c: char| lowered(c))
}

/// The text behind the last colon, or all of it where there is none.
pub open spec fn after_last_colon(text: Seq<char>) -> Seq<char>
    decreases text.len(),
{
    if text.len() == 0 || text.last() == ':' {
        Seq::empty()
    } else {
        after_last_colon(text.drop_last()).push(text.last())
    }
}

/// A listener as its address.
pub enum Listener {
    Tcp(u16),
    Unix(Seq<char>),
}

impl View for VncListenerType {
    type V = Listener;

    open spec fn view(&self) -> Listener {
        match self {
            VncListenerType::Tcp { port } => Listener::Tcp(*port),
            VncListenerType::Unix { path } => Listener::Unix(path@),
        }
    }
}

/// The listener that a text names: a path after "unix:", or else a port, which an address
/// and "tcp:" may stand before.
pub open spec fn listener_of(text: Seq<char>) -> Result<Listener, ListenerError> {
    if begins_with(text, "unix:"@) {
        if text.len() == 5 {
            Err(ListenerError::EmptyPath)
        } else {
            Ok(Listener::Unix(text.skip(5)))
        }
    } else {
        let address = if begins_with(text, "tcp:"@) {
            text.skip(4)
        } else {
            text
        };
        match number_value(after_last_colon(address), 10, u16::MAX as nat) {
            Ok(port) => Ok(Listener::Tcp(port as u16)),
            Err(error) => Err(ListenerError::InvalidPort(error)),
        }
    }
}

fn digit_of(c: char, radix: u64) -> (r: Option<u64>)
    requires
        radix <= 16,
    ensures
        match r {
            Some(value) => digit_value(c, radix as nat) == Some(value as nat) && value < 16,
            None => digit_value(c, radix as nat) is None,
        },
{
    let value: u64 = if '0' <= c && c <= '9' {
        c as u64 - '0' as u64
    } else if 'a' <= c && c <= 'f' {
        c as u64 - 'a' as u64 + 10
    } else if 'A' <= c && c <= 'F' {
        c as u64 - 'A' as u64 + 10
    } else {
        16
    };
    if value < radix {
        Some(value)
    } else {
        None
    }
}

fn parse_number(text: &str, radix: u64, maximum: u64) -> (r: Result<u64, NumberError>)
    requires
        2 <= radix <= 16,
    ensures
        match r {
            Ok(value) => number_value(text@, radix as nat, maximum as nat) == Ok::<
                nat,
                NumberError,
            >(value as nat) && value <= maximum,
            Err(error) => number_value(text@, radix as nat, maximum as nat) == Err::<
                nat,
                NumberError,
            >(error),
        },
{
    let length: usize = text.unicode_len();
    if length == 0 {
        return Err(NumberError::Empty);
    }
    let start: usize = if length > 1 && text.get_char(0) == '+' {
        1
    } else {
        0
    };
    let ghost digits = text@.skip(start as int);
    assert(start == 0 ==> digits =~= text@);
    let mut value: u64 = 0;
    let mut i: usize = start;
    assert(digits.take(0) =~= Seq::empty());
    while i < length
        invariant
            2 <= radix <= 16,
            start <= i <= length,
            start <= 1,
            length == text@.len(),
            length > 0,
            digits == text@.skip(start as int),
            number_value(text@, radix as nat, maximum as nat) == digits_value(
                digits,
                radix as nat,
                maximum as nat,
            ),
            value <= maximum,
            digits_value(digits.take(i - start), radix as nat, maximum as nat) == Ok::<
                nat,
                NumberError,
            >(value as nat),
        decreases length - i,
    {
        let c = text.get_char(i);
        let ghost seen = digits.take(i - start);
        let ghost next = digits.take(i - start + 1);
        assert(next.drop_last() =~= seen);
        assert(next.last() == c);
        let digit: u64 = match digit_of(c, radix) {
            Some(digit) => digit,
            None => {
                proof {
                    lemma_a_fault_decides(digits, radix as nat, maximum as nat, i - start + 1);
                }
                return Err(NumberError::InvalidDigit);
            },
        };
        let scaled: u64 = match value.checked_mul(radix) {
            Some(scaled) => scaled,
            None => {
                proof {
                    lemma_a_fault_decides(digits, radix as nat, maximum as nat, i - start + 1);
                }
                return Err(NumberError::Overflow);
            },
        };
        let sum: u64 = match scaled.checked_add(digit) {
            Some(sum) => sum,
            None => {
                proof {
                    lemma_a_fault_decides(digits, radix as nat, maximum as nat, i - start + 1);
                }
                return Err(NumberError::Overflow);
            },
        };
        if sum > maximum {
            proof {
                lemma_a_fault_decides(digits, radix as nat, maximum as nat, i - start + 1);
            }
            return Err(NumberError::Overflow);
        }
        value = sum;
        i = i + 1;
    }
    assert(digits.take(i - start) =~= digits);
    Ok(value)
}

/// A fault in the first `n` digits is the fault of the whole.
proof fn lemma_a_fault_decides(digits: Seq<char>, radix: nat, maximum: nat, n: int)
    requires
        0 <= n <= digits.len(),
        digits_value(digits.take(n), radix, maximum) is Err,
    ensures
        digits_value(digits, radix, maximum) == digits_value(digits.take(n), radix, maximum),
    decreases digits.len() - n,
{
    if n == digits.len() {
        assert(digits.take(n) =~= digits);
    } else {
        assert(digits.take(n + 1).drop_last() =~= digits.take(n));
        lemma_a_fault_decides(digits, radix, maximum, n + 1);
    }
}

fn has_prefix(text: &str, prefix: &str) -> (r: bool)
    ensures
        r == begins_with(text@, prefix@),
{
    let n: usize = prefix.unicode_len();
    if text.unicode_len() < n {
        return false;
    }
    let mut i: usize = 0;
    while i < n
        invariant
            i <= n,
            n == prefix@.len(),
            n <= text@.len(),
            text@.take(i as int) == prefix@.take(i as int),
        decreases n - i,
    {
        if text.get_char(i) != prefix.get_char(i) {
            assert(text@.take(n as int)[i as int] != prefix@[i as int]);
            return false;
        }
        i = i + 1;
        assert(text@.take(i as int) =~= text@.take(i - 1).push(text@[i - 1]));
        assert(prefix@.take(i as int) =~= prefix@.take(i - 1).push(prefix@[i - 1]));
    }
    assert(prefix@.take(n as int) =~= prefix@);
    true
}

/// Parses a decimal number, or a hexadecimal one after "0x".
pub fn parse_u64(value: &str) -> (r: Result<u64, NumberError>)
    ensures
        match r {
            Ok(number) => u64_value(value@) == Ok::<nat, NumberError>(number as nat),
            Err(error) => u64_value(value@) == Err::<nat, NumberError>(error),
        },
{
    proof {
        reveal_strlit("0x");
    }
    if has_prefix(value, "0x") {
        let hex = value.substring_char(2, value.unicode_len());
        assert(hex@ =~= value@.skip(2));
        parse_number(hex, 16, u64::MAX)
    } else {
        parse_number(value, 10, u64::MAX)
    }
}

fn lower(c: char) -> (r: char)
    ensures
        r == lowered(c),
{
    if 'A' <= c && c <= 'Z' {
        ((c as u8) + 32) as char
    } else {
        c
    }
}

fn same_in_lower_case(text: &str, other: &str) -> (r: bool)
    ensures
        r == (lower_case(text@) == other@),
{
    let n: usize = text.unicode_len();
    if n != other.unicode_len() {
        return false;
    }
    let mut i: usize = 0;
    while i < n
        invariant
            i <= n,
            n == text@.len(),
            n == other@.len(),
            forall|k: int| 0 <= k < i ==> lowered(#[trigger] text@[k]) == other@[k],
        decreases n - i,
    {
        if lower(text.get_char(i)) != other.get_char(i) {
            assert(lower_case(text@)[i as int] != other@[i as int]);
            return false;
        }
        i = i + 1;
    }
    assert(lower_case(text@) =~= other@);
    true
}

/// Parses the name of a pixel format: the two names of the one that is supported, in any
/// case.
pub fn parse_format(value: &str) -> (r: Result<u32, ()>)
    ensures
        r == (if lower_case(value@) == "xrgb8888"@ || lower_case(value@) == "bgrx8888"@ {
            Ok(DRM_FORMAT_XRGB8888)
        } else {
            Err(())
        }),
{
    if same_in_lower_case(value, "xrgb8888") || same_in_lower_case(value, "bgrx8888") {
        Ok(DRM_FORMAT_XRGB8888)
    } else {
        Err(())
    }
}

/// The number of characters before the text behind the last colon.
fn last_part(text: &str) -> (r: usize)
    ensures
        r <= text@.len(),
        text@.skip(r as int) == after_last_colon(text@),
{
    let n: usize = text.unicode_len();
    let mut i: usize = n;
    assert(text@.take(n as int) =~= text@);
    while i > 0
        invariant
            i <= n,
            n == text@.len(),
            after_last_colon(text@) == after_last_colon(text@.take(i as int)) + text@.skip(i as int),
        decreases i,
    {
        assert(text@.take(i as int).last() == text@[i - 1]);
        if text.get_char(i - 1) == ':' {
            assert(after_last_colon(text@.take(i as int)) =~= Seq::empty());
            assert(Seq::<char>::empty() + text@.skip(i as int) =~= text@.skip(i as int));
            return i;
        }
        let ghost before = after_last_colon(text@.take(i - 1));
        assert(text@.take(i as int).drop_last() =~= text@.take(i - 1));
        assert(before.push(text@[i - 1]) + text@.skip(i as int) =~= before + text@.skip(i - 1));
        i = i - 1;
    }
    assert(after_last_colon(text@.take(0)) =~= Seq::empty());
    assert(Seq::<char>::empty() + text@.skip(0) =~= text@.skip(0));
    0
}

/// Parses where to listen.
pub fn parse_vnc_listener(value: &str) -> (r: Result<VncListenerType, ListenerError>)
    ensures
        match r {
            Ok(listener) => listener_of(value@) == Ok::<Listener, ListenerError>(listener@),
            Err(error) => listener_of(value@) == Err::<Listener, ListenerError>(error),
        },
{
    proof {
        reveal_strlit("unix:");
        reveal_strlit("tcp:");
    }
    let length: usize = value.unicode_len();
    if has_prefix(value, "unix:") {
        if length == 5 {
            return Err(ListenerError::EmptyPath);
        }
        let path = value.substring_char(5, length);
        assert(path@ =~= value@.skip(5));
        return Ok(VncListenerType::Unix { path: path.to_owned() });
    }
    let address = if has_prefix(value, "tcp:") {
        let rest = value.substring_char(4, length);
        assert(rest@ =~= value@.skip(4));
        rest
    } else {
        value
    };
    let start: usize = last_part(address);
    let port = address.substring_char(start, address.unicode_len());
    assert(port@ =~= address@.skip(start as int));
    match parse_number(port, 10, 65535) {
        Ok(port) => Ok(VncListenerType::Tcp { port: port as u16 }),
        Err(error) => Err(ListenerError::InvalidPort(error)),
    }
}

/// The stride of a framebuffer: the one that was given, or else that of its width. A width
/// whose rows overflow is refused either way.
pub fn choose_stride(width: u32, stride: Option<u32>) -> (r: Option<u32>)
    ensures
        r == (if 4 * width > u32::MAX {
            None
        } else {
            match stride {
                Some(given) => Some(given),
                None => Some((4 * width) as u32),
            }
        }),
{
    match width.checked_mul(4) {
        None => None,
        Some(default) => match stride {
            Some(given) => Some(given),
            None => Some(default),
        },
    }
}

/// Whether to give up: the time for the client's mappings is over, and none of those that
/// it made holds the framebuffer.
pub fn framebuffer_unreachable(deadline_passed: bool, mapped: bool, mappings: usize) -> (r: bool)
    ensures
        r == (deadline_passed && !mapped && mappings > 0),
{
    deadline_passed && !mapped && mappings > 0
}

/// The digit of a value, in small letters or in capitals above nine.
pub open spec fn digit(value: nat, capital: bool) -> char {
    if value < 10 {
        (0x30 + value) as char
    } else if capital {
        (0x41 + value - 10) as char
    } else {
        (0x61 + value - 10) as char
    }
}

/// A number as it is written: the remainder of a division by the base is its last digit.
pub open spec fn numeral(number: nat, radix: nat, capital: bool) -> Seq<char>
    decreases number,
    when radix >= 2
{
    if number < radix {
        seq![digit(number, capital)]
    } else {
        proof {
            vstd::arithmetic::div_mod::lemma_div_decreases(number as int, radix as int);
        }
        numeral(number / radix, radix, capital).push(digit(number % radix, capital))
    }
}

proof fn lemma_numeral(number: nat, radix: nat, capital: bool, maximum: nat)
    requires
        2 <= radix <= 16,
        number <= maximum,
    ensures
        numeral(number, radix, capital).len() > 0,
        digits_value(numeral(number, radix, capital), radix, maximum) == Ok::<nat, NumberError>(
            number,
        ),
        numeral(number, radix, capital)[0] != '+',
        !numeral(number, radix, capital).contains(':'),
    decreases number,
{
    let text = numeral(number, radix, capital);
    if number < radix {
        assert(text.drop_last() =~= Seq::empty());
        assert(digits_value(text.drop_last(), radix, maximum) == Ok::<nat, NumberError>(0));
        assert(0 * radix == 0);
    } else {
        let (front, last) = (number / radix, number % radix);
        vstd::arithmetic::div_mod::lemma_fundamental_div_mod(number as int, radix as int);
        vstd::arithmetic::div_mod::lemma_mod_bound(number as int, radix as int);
        vstd::arithmetic::div_mod::lemma_div_decreases(number as int, radix as int);
        vstd::arithmetic::mul::lemma_mul_is_commutative(front as int, radix as int);
        lemma_numeral(front, radix, capital, maximum);
        assert(text.drop_last() =~= numeral(front, radix, capital));
        assert(text[0] == numeral(front, radix, capital)[0]);
        if text.contains(':') {
            let k = choose|k: int| 0 <= k < text.len() && text[k] == ':';
            if k < text.len() - 1 {
                assert(numeral(front, radix, capital)[k] == ':');
            }
        }
    }
}

/// A number is read as it is written, in decimal digits, or after "0x" in hexadecimal ones. A plus
/// sign changes nothing, and a number that is too large is refused.
pub proof fn numbers_are_read_as_they_are_written(number: nat, capital: bool)
    requires
        number <= u64::MAX,
    ensures
        u64_value(numeral(number, 10, capital)) == Ok::<nat, NumberError>(number),
        u64_value(seq!['+'] + numeral(number, 10, capital)) == Ok::<nat, NumberError>(number),
        u64_value("0x"@ + numeral(number, 16, capital)) == Ok::<nat, NumberError>(number),
{
    reveal_strlit("0x");
    let decimal = numeral(number, 10, capital);
    let plus = seq!['+'] + decimal;
    let hexadecimal = "0x"@ + numeral(number, 16, capital);
    lemma_numeral(number, 10, capital, u64::MAX as nat);
    lemma_numeral(number, 16, capital, u64::MAX as nat);
    lemma_no_letter(number, 10, capital);
    assert(plus.skip(1) =~= decimal);
    assert(hexadecimal.skip(2) =~= numeral(number, 16, capital));
    assert(hexadecimal.take(2) =~= "0x"@);
    if begins_with(decimal, "0x"@) {
        assert(decimal[1] == decimal.take(2)[1]);
    }
    if begins_with(plus, "0x"@) {
        assert(plus[0] == plus.take(2)[0]);
    }
}

proof fn lemma_no_letter(number: nat, radix: nat, capital: bool)
    requires
        2 <= radix <= 16,
    ensures
        forall|i: int|
            0 <= i < numeral(number, radix, capital).len() ==> #[trigger] numeral(
                number,
                radix,
                capital,
            )[i] != 'x',
    decreases number,
{
    if number >= radix {
        vstd::arithmetic::div_mod::lemma_mod_bound(number as int, radix as int);
        vstd::arithmetic::div_mod::lemma_div_decreases(number as int, radix as int);
        lemma_no_letter(number / radix, radix, capital);
        assert forall|i: int| 0 <= i < numeral(number, radix, capital).len() implies #[trigger] numeral(
            number,
            radix,
            capital,
        )[i] != 'x' by {
            let front = numeral(number / radix, radix, capital);
            if i < front.len() {
                assert(numeral(number, radix, capital)[i] == front[i]);
            }
        }
    }
}

proof fn lemma_after_colon(front: Seq<char>, back: Seq<char>)
    requires
        !back.contains(':'),
    ensures
        after_last_colon(front.push(':') + back) == back,
    decreases back.len(),
{
    let text = front.push(':') + back;
    if back.len() == 0 {
        assert(text.last() == ':');
        assert(back =~= Seq::empty());
    } else {
        assert(text.last() == back.last());
        assert(back[back.len() - 1] == back.last());
        assert(text.drop_last() =~= front.push(':') + back.drop_last());
        assert(!back.drop_last().contains(':')) by {
            if back.drop_last().contains(':') {
                let k = choose|k: int| 0 <= k < back.len() - 1 && back.drop_last()[k] == ':';
                assert(back[k] == ':');
            }
        }
        lemma_after_colon(front, back.drop_last());
        assert(back.drop_last().push(back.last()) =~= back);
    }
}

proof fn lemma_no_colon(text: Seq<char>)
    requires
        !text.contains(':'),
    ensures
        after_last_colon(text) == text,
    decreases text.len(),
{
    if text.len() > 0 {
        assert(text[text.len() - 1] == text.last());
        assert(!text.drop_last().contains(':')) by {
            if text.drop_last().contains(':') {
                let k = choose|k: int| 0 <= k < text.len() - 1 && text.drop_last()[k] == ':';
                assert(text[k] == ':');
            }
        }
        lemma_no_colon(text.drop_last());
        assert(text.drop_last().push(text.last()) =~= text);
    } else {
        assert(text =~= Seq::empty());
    }
}

/// A listener is named by its port, which "tcp:", an address, or both may stand before, or by the
/// path of its socket after "unix:".
pub proof fn a_listener_is_what_its_name_says(port: u16, address: Seq<char>, path: Seq<char>)
    requires
        path.len() > 0,
    ensures
        ({
            let digits = numeral(port as nat, 10, false);
            &&& listener_of(digits) == Ok::<Listener, ListenerError>(Listener::Tcp(port))
            &&& listener_of("tcp:"@ + digits) == Ok::<Listener, ListenerError>(Listener::Tcp(port))
            &&& listener_of("tcp:"@ + (address.push(':') + digits)) == Ok::<Listener, ListenerError>(
                Listener::Tcp(port),
            )
            &&& listener_of("unix:"@ + path) == Ok::<Listener, ListenerError>(Listener::Unix(path))
        }),
{
    reveal_strlit("tcp:");
    reveal_strlit("unix:");
    let digits = numeral(port as nat, 10, false);
    lemma_numeral(port as nat, 10, false, u16::MAX as nat);
    lemma_no_colon(digits);
    lemma_after_colon(address, digits);
    let (short, long) = ("tcp:"@ + digits, "tcp:"@ + (address.push(':') + digits));
    let socket = "unix:"@ + path;
    assert(short.skip(4) =~= digits && short.take(4) =~= "tcp:"@);
    assert(long.skip(4) =~= address.push(':') + digits && long.take(4) =~= "tcp:"@);
    assert(socket.skip(5) =~= path && socket.take(5) =~= "unix:"@);
    if begins_with(digits, "unix:"@) {
        assert(digits.take(5)[4] == digits[4]);
    }
    if begins_with(digits, "tcp:"@) {
        assert(digits.take(4)[3] == digits[3]);
    }
    if begins_with(short, "unix:"@) {
        assert(short.take(5)[0] == short[0]);
    }
    if begins_with(long, "unix:"@) {
        assert(long.take(5)[0] == long[0]);
    }
}

} // verus!
