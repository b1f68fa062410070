//! Hexadecimal text to bytes and back.

use vstd::prelude::*;
use vstd::string::StringExecFns;
use vstd::string::StringSliceAdditionalSpecFns;
use vstd::utf8::{encode_utf8, is_ascii_chars};

verus! {

/// Why a text is not the hexadecimal form of a byte string.
#[derive(Debug, Clone, Copy, PartialEq, Eq, Structural)]
pub enum HexError {
    /// The text has an odd number of bytes.
    OddLength,
    /// Some pair of bytes does not denote a value.
    InvalidDigit,
}

/// The value of one hexadecimal digit, in either case.
pub open spec fn digit_value(c: u8) -> Option<nat> {
    if 0x30 <= c <= 0x39 {
        Some((c - 0x30) as nat)
    } else if 0x61 <= c <= 0x66 {
        Some((c - 0x61 + 10) as nat)
    } else if 0x41 <= c <= 0x46 {
        Some((c - 0x41 + 10) as nat)
    } else {
        None
    }
}

/// The byte that the pair `hi`, `lo` denotes: two digits, or a plus sign
/// followed by one digit.
pub open spec fn pair_value(hi: u8, lo: u8) -> Option<nat> {
    match digit_value(lo) {
        None => None,
        Some(low) => if hi == 0x2b {
            Some(low)
        } else {
            match digit_value(hi) {
                None => None,
                Some(high) => Some(high * 16 + low),
            }
        },
    }
}

/// Whether each of the first `pairs` pairs of `text` denotes a byte.
pub open spec fn pairs_valid(text: Seq<u8>, pairs: int) -> bool {
    forall|k: int| 0 <= k < pairs ==> (#[trigger] pair_value(text[2 * k], text[2 * k + 1])) is Some
}

/// The bytes that the pairs of `text` denote, in order.
pub open spec fn decoded(text: Seq<u8>) -> Seq<u8> {
    Seq::new(text.len() / 2, |k: int| pair_value(text[2 * k], text[2 * k + 1]).unwrap() as u8)
}

/// What `hex_to_bytes` returns for a text with the UTF-8 bytes `text`.
pub open spec fn parsed(text: Seq<u8>) -> Result<Seq<u8>, HexError> {
    if text.len() % 2 != 0 {
        Err(HexError::OddLength)
    } else if !pairs_valid(text, text.len() as int / 2) {
        Err(HexError::InvalidDigit)
    } else {
        Ok(decoded(text))
    }
}

fn digit(c: u8) -> (r: Option<u8>)
    ensures
        r is Some <==> digit_value(c) is Some,
        r matches Some(d) ==> d as nat == digit_value(c).unwrap() && d < 16,
{
    if 0x30 <= c && c <= 0x39 {
        Some(c - 0x30)
    } else if 0x61 <= c && c <= 0x66 {
        Some(c - 0x61 + 10)
    } else if 0x41 <= c && c <= 0x46 {
        Some(c - 0x41 + 10)
    } else {
        None
    }
}

fn pair(hi: u8, lo: u8) -> (r: Option<u8>)
    ensures
        r is Some <==> pair_value(hi, lo) is Some,
        r matches Some(b) ==> b as nat == pair_value(hi, lo).unwrap(),
{
    match digit(lo) {
        None => None,
        Some(low) => if hi == 0x2b {
            Some(low)
        } else {
            match digit(hi) {
                None => None,
                Some(high) => Some(high * 16 + low),
            }
        },
    }
}

/// Reads a byte string from its hexadecimal form.
///
/// The text is taken two bytes at a time. A pair denotes a byte when it is
/// two hexadecimal digits of either case, or a plus sign and one digit. A
/// text of odd length is refused before any pair is looked at.
pub fn hex_to_bytes(hex_str: &str) -> (r: Result<Vec<u8>, HexError>)
    ensures
        match r {
            Ok(bytes) => parsed(hex_str.spec_bytes()) == Ok::<Seq<u8>, HexError>(bytes@),
            Err(e) => parsed(hex_str.spec_bytes()) == Err::<Seq<u8>, HexError>(e),
        },
{
    let text = hex_str.as_bytes();
    if text.len() % 2 != 0 {
        return Err(HexError::OddLength);
    }
    let count = text.len() / 2;
    let mut bytes: Vec<u8> = Vec::with_capacity(count);
    let mut k: usize = 0;
    while k < count
        invariant
            text@ == hex_str.spec_bytes(),
            text@.len() % 2 == 0,
            text@.len() <= usize::MAX,
            count == text@.len() / 2,
            k <= count,
            bytes@.len() == k,
            pairs_valid(text@, k as int),
            forall|j: int| 0 <= j < k ==> bytes@[j] as nat == pair_value(text@[2 * j], text@[2 * j + 1]).unwrap(),
        decreases count - k,
    {
        match pair(text[2 * k], text[2 * k + 1]) {
            None => {
                return Err(HexError::InvalidDigit);
            },
            Some(b) => {
                bytes.push(b);
            },
        }
        k += 1;
    }
    assert(bytes@ =~= decoded(text@));
    Ok(bytes)
}

/// The lowercase hexadecimal digit of value `d`.
pub open spec fn digit_char(d: nat) -> char {
    if d < 10 {
        ((0x30 + d) as u8) as char
    } else {
        ((0x61 + d - 10) as u8) as char
    }
}

/// The hexadecimal form of `bytes`: two lowercase digits for each byte, the
/// high one first.
pub open spec fn encoded(bytes: Seq<u8>) -> Seq<char> {
    Seq::new(
        2 * bytes.len(),
        |i: int|
            digit_char(
                if i % 2 == 0 {
                    bytes[i / 2] as nat / 16
                } else {
                    bytes[i / 2] as nat % 16
                },
            ),
    )
}

fn digit_text(d: u8) -> (r: &'static str)
    requires
        d < 16,
    ensures
        r@ == seq![digit_char(d as nat)],
{
    proof {
        reveal_strlit("0");
        reveal_strlit("1");
        reveal_strlit("2");
        reveal_strlit("3");
        reveal_strlit("4");
        reveal_strlit("5");
        reveal_strlit("6");
        reveal_strlit("7");
        reveal_strlit("8");
        reveal_strlit("9");
        reveal_strlit("a");
        reveal_strlit("b");
        reveal_strlit("c");
        reveal_strlit("d");
        reveal_strlit("e");
        reveal_strlit("f");
    }
    let text = match d {
        0 => "0",
        1 => "1",
        2 => "2",
        3 => "3",
        4 => "4",
        5 => "5",
        6 => "6",
        7 => "7",
        8 => "8",
        9 => "9",
        10 => "a",
        11 => "b",
        12 => "c",
        13 => "d",
        14 => "e",
        _ => "f",
    };
    assert(text@ =~= seq![digit_char(d as nat)]);
    text
}

/// Writes `bytes` in hexadecimal, two lowercase digits to the byte.
pub fn hexlify(bytes: &[u8]) -> (r: String)
    ensures
        r@ == encoded(bytes@),
{
    let mut out = String::new();
    let mut k: usize = 0;
    while k < bytes.len()
        invariant
            k <= bytes@.len(),
            out@ == encoded(bytes@.take(k as int)),
        decreases bytes@.len() - k,
    {
        let ghost before = out@;
        let byte = bytes[k];
        out.append(digit_text(byte / 16));
        out.append(digit_text(byte % 16));
        assert(out@ =~= encoded(bytes@.take(k + 1))) by {
            assert(out@ == before + seq![digit_char(byte as nat / 16)] + seq![
                digit_char(byte as nat % 16),
            ]);
        }
        k += 1;
    }
    assert(bytes@.take(k as int) =~= bytes@);
    out
}

/// Reading back what `hexlify` wrote gives the bytes that were written.
pub proof fn lemma_hex_round_trip(bytes: Seq<u8>)
    ensures
        parsed(encode_utf8(encoded(bytes))) == Ok::<Seq<u8>, HexError>(bytes),
{
    let text = encoded(bytes);
    assert(is_ascii_chars(text));
    vstd::utf8::is_ascii_chars_encode_utf8(text);
    let raw = encode_utf8(text);
    assert forall|k: int| 0 <= k < bytes.len() implies pair_value(raw[2 * k], raw[2 * k + 1])
        == Some(bytes[k] as nat) by {
        assert(raw[2 * k] == text[2 * k] as u8);
        assert(raw[2 * k + 1] == text[2 * k + 1] as u8);
        let high = bytes[k] as nat / 16;
        let low = bytes[k] as nat % 16;
        assert(text[2 * k] == digit_char(high));
        assert(text[2 * k + 1] == digit_char(low));
    }
    assert(pairs_valid(raw, raw.len() as int / 2));
    assert(decoded(raw) =~= bytes);
}

} // verus!
