//! Text written as hexadecimal digits, two per byte, as PDF hex strings hold it.

use vstd::prelude::*;
use crate::text::{chars_of, push_char, string_of, is_white, char_is_whitespace};
use vstd::utf8::{encode_utf8, valid_utf8, decode_utf8};

verus! {

/// The uppercase hexadecimal digit for `n` below sixteen.
pub open spec fn hex_digit(n: u8) -> char {
    if n < 10 {
        (n + 48) as u8 as char
    } else {
        (n + 55) as u8 as char
    }
}

/// Each byte as two uppercase hexadecimal digits, high digit first.
pub open spec fn hex_of(b: Seq<u8>) -> Seq<char> {
    Seq::new(
        2 * b.len(),
        |i: int|
            if i % 2 == 0 {
                hex_digit(b[i / 2] / 16)
            } else {
                hex_digit(b[i / 2] % 16)
            },
    )
}

fn hex_digit_of(n: u8) -> (r: char)
    requires
        n < 16,
    ensures
        r == hex_digit(n),
{
    if n < 10 {
        (n + 48) as char
    } else {
        (n + 55) as char
    }
}

/// The UTF-8 bytes of `text`, each as two uppercase hexadecimal digits.
pub fn hex_encode_text(text: &str) -> (r: String)
    ensures
        r@ == hex_of(encode_utf8(text@)),
{
    let bytes = text.as_bytes();
    let ghost b = bytes@;
    let mut out = String::new();
    let mut k: usize = 0;
    while k < bytes.len()
        invariant
            b == bytes@,
            k <= b.len(),
            out@.len() == 2 * k,
            forall|j: int| 0 <= j < 2 * k ==> out@[j] == hex_of(b)[j],
        decreases b.len() - k,
    {
        let x = bytes[k];
        push_char(&mut out, hex_digit_of(x / 16));
        push_char(&mut out, hex_digit_of(x % 16));
        proof {
            assert forall|j: int| 0 <= j < 2 * (k + 1) implies out@[j] == hex_of(b)[j] by {
                if j >= 2 * k {
                    assert(j / 2 == k as int);
                }
            }
        }
        k = k + 1;
    }
    assert(out@ =~= hex_of(b));
    out
}

/// The value of a hexadecimal digit of either case.
pub open spec fn hex_value(c: char) -> Option<u8> {
    if '0' <= c && c <= '9' {
        Some((c as u32 - 48) as u8)
    } else if 'a' <= c && c <= 'f' {
        Some((c as u32 - 87) as u8)
    } else if 'A' <= c && c <= 'F' {
        Some((c as u32 - 55) as u8)
    } else {
        None
    }
}

/// The bytes that the digit pairs of `s` spell, left to right, a last
/// unpaired character being ignored; `None` if a pair holds a character that
/// is no hexadecimal digit.
pub open spec fn hex_bytes(s: Seq<char>) -> Option<Seq<u8>>
    decreases s.len(),
{
    if s.len() < 2 {
        Some(Seq::empty())
    } else {
        match (hex_value(s[0]), hex_value(s[1]), hex_bytes(s.skip(2))) {
            (Some(h), Some(l), Some(rest)) => Some(seq![(h * 16 + l) as u8] + rest),
            _ => None,
        }
    }
}

/// Whether `char::is_alphanumeric` holds of `c` (Unicode Alphabetic or Numeric).
pub uninterp spec fn is_alnum(c: char) -> bool;

/// Relies on `char::is_alphanumeric`: a fixed property of the character alone.
#[verifier::external_body]
fn char_is_alphanumeric(c: char) -> (r: bool)
    ensures
        r == is_alnum(c),
{
    c.is_alphanumeric()
}

/// ASCII punctuation, as `char::is_ascii_punctuation` documents it.
pub open spec fn is_ascii_punct(c: char) -> bool {
    ||| '!' <= c && c <= '/'
    ||| ':' <= c && c <= '@'
    ||| '[' <= c && c <= '`'
    ||| '{' <= c && c <= '~'
}

/// A character that makes a byte-per-character reading look like text.
pub open spec fn is_texty(c: char) -> bool {
    is_alnum(c) || is_white(c) || is_ascii_punct(c)
}

/// Each byte read as the character of the same code point.
pub open spec fn latin1(b: Seq<u8>) -> Seq<char> {
    b.map_values(|x: u8| x as char)
}

/// The text a byte string holds: UTF-8 where it is valid, else one character
/// per byte where that gives at least one letter, digit, space or punctuation
/// mark.
pub open spec fn bytes_as_text(b: Seq<u8>) -> Option<Seq<char>> {
    if valid_utf8(b) {
        Some(decode_utf8(b))
    } else if exists|i: int| 0 <= i < b.len() && is_texty(#[trigger] latin1(b)[i]) {
        Some(latin1(b))
    } else {
        None
    }
}

/// The text that a hex string stands for, where `byte_len` is the length of
/// the hex string in UTF-8 bytes.
pub open spec fn hex_decoded(s: Seq<char>, byte_len: nat) -> Option<Seq<char>> {
    if s.len() == 0 || byte_len % 2 != 0 {
        None
    } else {
        match hex_bytes(s) {
            Some(b) => bytes_as_text(b),
            None => None,
        }
    }
}

/// Relies on `String::from_utf8`: the string the bytes encode, exactly when
/// they are valid UTF-8.
#[verifier::external_body]
fn utf8_to_string(bytes: Vec<u8>) -> (r: Option<String>)
    ensures
        r is Some <==> valid_utf8(bytes@),
        r is Some ==> r->0@ == decode_utf8(bytes@),
{
    String::from_utf8(bytes).ok()
}

fn hex_value_of(c: char) -> (r: Option<u8>)
    ensures
        r == hex_value(c),
{
    if '0' <= c && c <= '9' {
        Some((c as u32 - 48) as u8)
    } else if 'a' <= c && c <= 'f' {
        Some((c as u32 - 87) as u8)
    } else if 'A' <= c && c <= 'F' {
        Some((c as u32 - 55) as u8)
    } else {
        None
    }
}

/// The text that bytes hold, as `bytes_as_text` says.
pub fn bytes_to_text(bytes: Vec<u8>) -> (r: Option<String>)
    ensures
        match r {
            Some(t) => bytes_as_text(bytes@) == Some(t@),
            None => bytes_as_text(bytes@) is None,
        },
{
    let ghost b = bytes@;
    let mut latin: Vec<char> = Vec::new();
    let mut texty = false;
    let mut i: usize = 0;
    while i < bytes.len()
        invariant
            b == bytes@,
            i <= b.len(),
            latin@ == latin1(b.take(i as int)),
            texty <==> exists|j: int| 0 <= j < i && is_texty(#[trigger] latin1(b)[j]),
        decreases b.len() - i,
    {
        let c = bytes[i] as char;
        assert(latin1(b)[i as int] == c);
        if char_is_alphanumeric(c) || char_is_whitespace(c) || ('!' <= c && c <= '/') || (':' <= c
            && c <= '@') || ('[' <= c && c <= '`') || ('{' <= c && c <= '~') {
            texty = true;
        }
        latin.push(c);
        assert(latin1(b.take(i + 1)) =~= latin1(b.take(i as int)).push(c));
        i = i + 1;
    }
    assert(b.take(i as int) =~= b);
    match utf8_to_string(bytes) {
        Some(t) => Some(t),
        None => {
            if texty {
                Some(string_of(latin.as_slice()))
            } else {
                None
            }
        },
    }
}

/// The text that a PDF hex string stands for: `None` if it is empty, has an
/// odd length in bytes, holds a pair that is no hexadecimal number, or spells
/// bytes that read as no text.
pub fn hex_decode_text(hex_str: &str) -> (r: Option<String>)
    ensures
        match r {
            Some(t) => hex_decoded(hex_str@, encode_utf8(hex_str@).len()) == Some(t@),
            None => hex_decoded(hex_str@, encode_utf8(hex_str@).len()) is None,
        },
{
    if hex_str.is_empty() || hex_str.as_bytes().len() % 2 != 0 {
        return None;
    }
    let cs = chars_of(hex_str);
    let ghost s = hex_str@;
    let mut bytes: Vec<u8> = Vec::new();
    let mut i: usize = 0;
    assert(s.skip(0) =~= s);
    while cs.len() - i >= 2
        invariant
            s == cs@,
            s == hex_str@,
            hex_decoded(s, encode_utf8(s).len()) == match hex_bytes(s) {
                Some(b) => bytes_as_text(b),
                None => None,
            },
            i <= cs@.len(),
            match hex_bytes(s.skip(i as int)) {
                Some(rest) => hex_bytes(s) == Some(bytes@ + rest),
                None => hex_bytes(s) is None,
            },
        decreases cs@.len() - i,
    {
        let ghost tail = s.skip(i as int);
        assert(tail[0] == s[i as int] && tail[1] == s[i + 1]);
        assert(tail.skip(2) =~= s.skip(i + 2));
        match (hex_value_of(cs[i]), hex_value_of(cs[i + 1])) {
            (Some(h), Some(l)) => {
                let x: u8 = h * 16 + l;
                proof {
                    if let Some(rest) = hex_bytes(s.skip(i + 2)) {
                        assert(bytes@.push(x) + rest =~= bytes@ + (seq![x] + rest));
                    }
                }
                bytes.push(x);
            },
            _ => {
                assert(hex_bytes(tail) is None);
                return None;
            },
        }
        i = i + 2;
    }
    assert(hex_bytes(s.skip(i as int)) == Some(Seq::<u8>::empty()));
    assert(bytes@ + Seq::<u8>::empty() =~= bytes@);
    bytes_to_text(bytes)
}

} // verus!
