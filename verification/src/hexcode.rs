//! Binary values as hexadecimal text.
//!
//! The text is made and read by the `hex` crate. What this module says of
//! its two functions is taken on trust; everything built on it is proved.

use vstd::prelude::*;

verus! {

/// The digit that stands for a value below sixteen, letters in upper case.
pub open spec fn upper_digit(n: int) -> char {
    if n < 10 {
        (48 + n) as char
    } else {
        (55 + n) as char
    }
}

/// The text of `data`: two digits for each byte, the high half first.
pub open spec fn hex_upper(data: Seq<u8>) -> Seq<char> {
    Seq::new(
        2 * data.len(),
        |i: int|
            if i % 2 == 0 {
                upper_digit(data[i / 2] as int / 16)
            } else {
                upper_digit(data[i / 2] as int % 16)
            },
    )
}

/// `b` is one of `0`-`9`, `A`-`F`, `a`-`f`.
pub open spec fn is_hex_digit(b: u8) -> bool {
    (48 <= b <= 57) || (65 <= b <= 70) || (97 <= b <= 102)
}

/// What a hexadecimal digit counts for.
pub open spec fn digit_value(b: u8) -> int {
    if b <= 57 {
        b - 48
    } else if b <= 70 {
        b - 55
    } else {
        b - 87
    }
}

/// Every byte of `text` is a hexadecimal digit.
pub open spec fn all_hex(text: Seq<u8>) -> bool {
    forall|i: int| 0 <= i < text.len() ==> is_hex_digit(#[trigger] text[i])
}

/// `i` is the place of the first byte of `text` that is no hexadecimal
/// digit.
pub open spec fn first_bad_digit(text: Seq<u8>, i: int) -> bool {
    &&& 0 <= i < text.len()
    &&& !is_hex_digit(text[i])
    &&& forall|j: int| 0 <= j < i ==> is_hex_digit(#[trigger] text[j])
}

/// The bytes that a text of hexadecimal digits stands for, a pair of
/// digits to the byte.
pub open spec fn hex_value(text: Seq<u8>) -> Seq<u8> {
    Seq::new(
        text.len() / 2,
        |i: int| (digit_value(text[2 * i]) * 16 + digit_value(text[2 * i + 1])) as u8,
    )
}

/// Why a text could not be read as hexadecimal.
#[derive(Debug, Clone, Copy, PartialEq, Eq, Structural)]
pub enum HexError {
    /// A byte that is no hexadecimal digit, and where it stands.
    InvalidHexCharacter { c: char, index: usize },
    /// Two digits make a byte, so the text must hold an even number.
    OddLength,
    /// The text does not fill a container of a fixed size.
    InvalidStringLength,
}

/// What `hex_decode` returns on `text`.
pub open spec fn decoded(text: Seq<u8>, r: Result<Vec<u8>, HexError>) -> bool {
    match r {
        Ok(v) => text.len() % 2 == 0 && all_hex(text) && v@ == hex_value(text),
        Err(HexError::OddLength) => text.len() % 2 == 1,
        Err(HexError::InvalidHexCharacter { c, index }) => {
            &&& text.len() % 2 == 0
            &&& first_bad_digit(text, index as int)
            &&& c == text[index as int] as char
        },
        Err(HexError::InvalidStringLength) => false,
    }
}

/// Calls `hex::encode_upper`. Trusted: the result has two upper-case
/// digits for each byte of `data`, in the order of the bytes, the high
/// half of a byte before the low one.
#[verifier::external_body]
pub(crate) fn hex_encode_upper(data: &[u8]) -> (r: String)
    ensures
        r@ == hex_upper(data@),
{
    hex::encode_upper(data)
}

/// Calls `hex::decode`. Trusted: a text of odd length is refused as such;
/// otherwise the first byte that is no digit is reported with its place;
/// otherwise each pair of digits, in either case, gives one byte.
#[verifier::external_body]
pub(crate) fn hex_decode(text: &[u8]) -> (r: Result<Vec<u8>, HexError>)
    ensures
        decoded(text@, r),
{
    match hex::decode(text) {
        Ok(v) => Ok(v),
        Err(hex::FromHexError::InvalidHexCharacter { c, index }) => Err(
            HexError::InvalidHexCharacter { c, index },
        ),
        Err(hex::FromHexError::OddLength) => Err(HexError::OddLength),
        Err(hex::FromHexError::InvalidStringLength) => Err(HexError::InvalidStringLength),
    }
}

/// The text of any value is plain ASCII, made of hexadecimal digits.
pub proof fn lemma_hex_upper_is_hex(data: Seq<u8>)
    ensures
        vstd::utf8::is_ascii_chars(hex_upper(data)),
        hex_upper(data).len() == 2 * data.len(),
        forall|i: int|
            0 <= i < 2 * data.len() ==> is_hex_digit(#[trigger] hex_upper(data)[i] as u8),
{
    assert forall|i: int| 0 <= i < 2 * data.len() implies is_hex_digit(
        #[trigger] hex_upper(data)[i] as u8,
    ) && '\0' <= hex_upper(data)[i] <= '\u{7f}' by {
        let b = data[i / 2] as int;
        let n = if i % 2 == 0 {
            b / 16
        } else {
            b % 16
        };
        assert(0 <= n < 16);
        assert(hex_upper(data)[i] == upper_digit(n));
    }
}

/// Different values have different texts.
pub proof fn lemma_hex_upper_injective(a: Seq<u8>, b: Seq<u8>)
    requires
        hex_upper(a) == hex_upper(b),
    ensures
        a == b,
{
    assert(hex_upper(a).len() == 2 * a.len() && hex_upper(b).len() == 2 * b.len());
    assert forall|i: int| 0 <= i < a.len() implies a[i] == b[i] by {
        let x = a[i] as int;
        let y = b[i] as int;
        assert((2 * i) / 2 == i && (2 * i) % 2 == 0);
        assert((2 * i + 1) / 2 == i && (2 * i + 1) % 2 == 1);
        assert(hex_upper(a)[2 * i] == upper_digit(x / 16));
        assert(hex_upper(b)[2 * i] == upper_digit(y / 16));
        assert(hex_upper(a)[2 * i + 1] == upper_digit(x % 16));
        assert(hex_upper(b)[2 * i + 1] == upper_digit(y % 16));
        assert(0 <= x / 16 < 16 && 0 <= x % 16 < 16 && 0 <= y / 16 < 16 && 0 <= y % 16 < 16);
        assert(upper_digit(x / 16) as int == (if x / 16 < 10 { 48 + x / 16 } else { 55 + x / 16 }));
        assert(upper_digit(y / 16) as int == (if y / 16 < 10 { 48 + y / 16 } else { 55 + y / 16 }));
        assert(upper_digit(x % 16) as int == (if x % 16 < 10 { 48 + x % 16 } else { 55 + x % 16 }));
        assert(upper_digit(y % 16) as int == (if y % 16 < 10 { 48 + y % 16 } else { 55 + y % 16 }));
        assert(x / 16 == y / 16 && x % 16 == y % 16);
        assert(x == (x / 16) * 16 + x % 16 && y == (y / 16) * 16 + y % 16);
    }
    assert(a =~= b);
}

/// Reading the text of a value gives the value back.
pub proof fn lemma_hex_round_trip(data: Seq<u8>)
    ensures
        vstd::utf8::encode_utf8(hex_upper(data)).len() % 2 == 0,
        all_hex(vstd::utf8::encode_utf8(hex_upper(data))),
        hex_value(vstd::utf8::encode_utf8(hex_upper(data))) == data,
{
    let text = hex_upper(data);
    let bytes = vstd::utf8::encode_utf8(text);
    lemma_hex_upper_is_hex(data);
    vstd::utf8::is_ascii_chars_encode_utf8(text);
    assert forall|i: int| 0 <= i < bytes.len() implies is_hex_digit(#[trigger] bytes[i]) by {
        assert(bytes[i] == text[i] as u8);
    }
    assert forall|i: int| 0 <= i < data.len() implies #[trigger] hex_value(bytes)[i] == data[i] by {
        let b = data[i] as int;
        assert(bytes[2 * i] == text[2 * i] as u8);
        assert(bytes[2 * i + 1] == text[2 * i + 1] as u8);
        assert((2 * i) / 2 == i && (2 * i) % 2 == 0);
        assert((2 * i + 1) / 2 == i && (2 * i + 1) % 2 == 1);
        assert(text[2 * i] == upper_digit(b / 16));
        assert(text[2 * i + 1] == upper_digit(b % 16));
        assert(0 <= b / 16 < 16 && 0 <= b % 16 < 16);
        assert(digit_value(upper_digit(b / 16) as u8) == b / 16);
        assert(digit_value(upper_digit(b % 16) as u8) == b % 16);
        assert((b / 16) * 16 + b % 16 == b);
    }
    assert(hex_value(bytes) =~= data);
}

/// The text of `data` in upper-case hexadecimal digits.
pub fn to_hex(data: &[u8]) -> (r: String)
    ensures
        r@ == hex_upper(data@),
{
    hex_encode_upper(data)
}

/// What reading `text` as hexadecimal gives: the bytes, or why not.
pub open spec fn read_hex(text: Seq<u8>) -> Result<Seq<u8>, HexError> {
    if text.len() % 2 == 1 {
        Err(HexError::OddLength)
    } else if all_hex(text) {
        Ok(hex_value(text))
    } else {
        let i = choose|i: int| first_bad_digit(text, i);
        Err(HexError::InvalidHexCharacter { c: text[i] as char, index: i as usize })
    }
}

/// Reads hexadecimal text, in either case of the letters, into bytes.
///
/// The text is taken as its UTF-8 bytes. It is read if and only if it has
/// an even number of bytes and each is a digit; if not, the error says
/// which of the two failed, and for a bad byte where the first one stands.
pub fn from_hex(text: &str) -> (r: Result<Vec<u8>, HexError>)
    ensures
        match r {
            Ok(v) => read_hex(vstd::utf8::encode_utf8(text@)) == Ok::<Seq<u8>, HexError>(v@),
            Err(e) => read_hex(vstd::utf8::encode_utf8(text@)) == Err::<Seq<u8>, HexError>(e),
        },
{
    let bytes = text.as_bytes();
    let r = hex_decode(bytes);
    proof {
        if let Err(HexError::InvalidHexCharacter { c, index }) = r {
            let i = choose|i: int| first_bad_digit(bytes@, i);
            assert(first_bad_digit(bytes@, index as int));
            if i < index {
                assert(is_hex_digit(bytes@[i]));
            } else if index < i {
                assert(is_hex_digit(bytes@[index as int]));
            }
            assert(i == index);
        }
    }
    r
}

} // verus!
