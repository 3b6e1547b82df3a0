//! Hex-encoded byte sequences, as they appear in attribute values such as
//! the initialisation vector of `EXT-X-KEY`.

use vstd::prelude::*;
use vstd::string::*;
use crate::error::Error;
use crate::text::{is_hex_digit, char_is_hex_digit};

verus! {

/// The numeric value of a hex digit character; sixteen for anything else.
pub open spec fn hex_char_val(c: char) -> nat {
    if 48 <= c as u32 <= 57 {
        (c as u32 - 48) as nat
    } else if 97 <= c as u32 <= 102 {
        (c as u32 - 87) as nat
    } else if 65 <= c as u32 <= 70 {
        (c as u32 - 55) as nat
    } else {
        16
    }
}

/// A hex string decodes when its length is even and every character is a
/// hex digit.
pub open spec fn hex_decodes(s: Seq<char>) -> bool {
    s.len() % 2 == 0 && forall|i: int| 0 <= i < s.len() ==> is_hex_digit(#[trigger] s[i])
}

/// The bytes a well-formed hex string stands for.
pub open spec fn hex_bytes(s: Seq<char>) -> Seq<u8> {
    Seq::new(s.len() / 2, |i: int| (hex_char_val(s[2 * i]) * 16 + hex_char_val(s[2 * i + 1])) as u8)
}

/// The lower-case hex digit character for a value below sixteen.
pub open spec fn hex_char_lower(d: nat) -> char {
    if d == 0 {
        '0'
    } else if d == 1 {
        '1'
    } else if d == 2 {
        '2'
    } else if d == 3 {
        '3'
    } else if d == 4 {
        '4'
    } else if d == 5 {
        '5'
    } else if d == 6 {
        '6'
    } else if d == 7 {
        '7'
    } else if d == 8 {
        '8'
    } else if d == 9 {
        '9'
    } else if d == 10 {
        'a'
    } else if d == 11 {
        'b'
    } else if d == 12 {
        'c'
    } else if d == 13 {
        'd'
    } else if d == 14 {
        'e'
    } else if d == 15 {
        'f'
    } else {
        '0'
    }
}

/// The lower-case hex rendering of a byte sequence: two digits per byte.
pub open spec fn hex_encoding(b: Seq<u8>) -> Seq<char> {
    Seq::new(
        2 * b.len(),
        |i: int|
            if i % 2 == 0 {
                hex_char_lower(b[i / 2] as nat / 16)
            } else {
                hex_char_lower(b[i / 2] as nat % 16)
            },
    )
}

pub proof fn lemma_hex_char_lower_val(d: nat)
    requires
        d < 16,
    ensures
        hex_char_val(hex_char_lower(d)) == d,
        is_hex_digit(hex_char_lower(d)),
{
}

/// Hex decoding undoes hex encoding: encoding any byte sequence yields a
/// well-formed hex string that decodes back to the same bytes.
pub proof fn lemma_hex_round_trip(b: Seq<u8>)
    ensures
        hex_decodes(hex_encoding(b)),
        hex_bytes(hex_encoding(b)) =~= b,
{
    let s = hex_encoding(b);
    assert forall|i: int| 0 <= i < s.len() implies is_hex_digit(#[trigger] s[i]) by {
        if i % 2 == 0 {
            lemma_hex_char_lower_val(b[i / 2] as nat / 16);
        } else {
            lemma_hex_char_lower_val(b[i / 2] as nat % 16);
        }
    }
    assert forall|i: int| 0 <= i < b.len() implies hex_bytes(s)[i] == b[i] by {
        assert((2 * i) % 2 == 0);
        assert((2 * i + 1) % 2 == 1);
        assert((2 * i) / 2 == i);
        assert((2 * i + 1) / 2 == i);
        lemma_hex_char_lower_val(b[i] as nat / 16);
        lemma_hex_char_lower_val(b[i] as nat % 16);
        assert(b[i] as nat / 16 * 16 + b[i] as nat % 16 == b[i] as nat);
    }
}

/// An odd-length hex string never decodes.
pub proof fn lemma_hex_odd_fails(s: Seq<char>)
    requires
        s.len() % 2 == 1,
    ensures
        !hex_decodes(s),
{
}

fn hex_digit_val(c: char) -> (r: u8)
    ensures
        r as nat == hex_char_val(c),
{
    if '0' <= c && c <= '9' {
        (c as u32 - 48) as u8
    } else if 'a' <= c && c <= 'f' {
        (c as u32 - 87) as u8
    } else if 'A' <= c && c <= 'F' {
        (c as u32 - 55) as u8
    } else {
        16
    }
}

/// Decode a hex string into bytes; odd length or a stray character is
/// `InvalidHex`.
pub fn hex_decode(s: &str) -> (r: Result<Vec<u8>, Error>)
    ensures
        match r {
            Ok(v) => hex_decodes(s@) && v@ == hex_bytes(s@),
            Err(e) => !hex_decodes(s@) && e == Error::InvalidHex,
        },
{
    let len = s.unicode_len();
    if len % 2 != 0 {
        return Err(Error::InvalidHex);
    }
    let mut out: Vec<u8> = Vec::new();
    let mut i: usize = 0;
    while i < len
        invariant
            len == s@.len(),
            len % 2 == 0,
            i % 2 == 0,
            i <= len,
            forall|j: int| 0 <= j < i ==> is_hex_digit(#[trigger] s@[j]),
            out@.len() == i / 2,
            forall|k: int|
                0 <= k < i / 2 ==> out@[k] == (hex_char_val(s@[2 * k]) * 16 + hex_char_val(
                    s@[2 * k + 1],
                )) as u8,
        decreases len - i,
    {
        let hi = s.get_char(i);
        let lo = s.get_char(i + 1);
        if !char_is_hex_digit(hi) || !char_is_hex_digit(lo) {
            return Err(Error::InvalidHex);
        }
        let b = hex_digit_val(hi) * 16 + hex_digit_val(lo);
        out.push(b);
        proof {
            assert(2 * ((i / 2) as int) == i);
            assert(2 * ((i / 2) as int) + 1 == i + 1);
        }
        i = i + 2;
    }
    proof {
        assert(out@ =~= hex_bytes(s@));
    }
    Ok(out)
}

fn hex_digit_lower(d: u8) -> (r: char)
    requires
        d < 16,
    ensures
        r == hex_char_lower(d as nat),
{
    if d == 0 {
        '0'
    } else if d == 1 {
        '1'
    } else if d == 2 {
        '2'
    } else if d == 3 {
        '3'
    } else if d == 4 {
        '4'
    } else if d == 5 {
        '5'
    } else if d == 6 {
        '6'
    } else if d == 7 {
        '7'
    } else if d == 8 {
        '8'
    } else if d == 9 {
        '9'
    } else if d == 10 {
        'a'
    } else if d == 11 {
        'b'
    } else if d == 12 {
        'c'
    } else if d == 13 {
        'd'
    } else if d == 14 {
        'e'
    } else {
        'f'
    }
}

/// Encode bytes as lower-case hex, two digits per byte.
pub fn hex_encode(b: &Vec<u8>) -> (r: String)
    ensures
        r@ == hex_encoding(b@),
{
    let mut out = String::new();
    let mut i: usize = 0;
    while i < b.len()
        invariant
            i <= b@.len(),
            out@ =~= hex_encoding(b@).take(2 * i as int),
        decreases b@.len() - i,
    {
        let hi = b[i] / 16;
        let lo = b[i] % 16;
        out.push(hex_digit_lower(hi));
        out.push(hex_digit_lower(lo));
        proof {
            assert((2 * (i as int)) / 2 == i as int);
            assert((2 * (i as int) + 1) / 2 == i as int);
            assert((2 * (i as int)) % 2 == 0);
            assert((2 * (i as int) + 1) % 2 == 1);
            assert(hex_encoding(b@).take(2 * (i as int) + 2) =~= hex_encoding(b@).take(
                2 * (i as int),
            ).push(hex_char_lower(b@[i as int] as nat / 16)).push(
                hex_char_lower(b@[i as int] as nat % 16),
            ));
        }
        i = i + 1;
    }
    proof {
        assert(out@ =~= hex_encoding(b@));
    }
    out
}

/// A hex attribute value, kept as the raw digit string until the decoder
/// asks for bytes.
#[derive(Debug, Clone, PartialEq, Eq)]
pub struct HexSequence {
    data: String,
}

impl View for HexSequence {
    type V = Seq<char>;

    closed spec fn view(&self) -> Seq<char> {
        self.data@
    }
}

impl HexSequence {
    pub fn new(data: String) -> (r: HexSequence)
        ensures
            r@ == data@,
    {
        HexSequence { data }
    }

    pub fn as_str(&self) -> (r: &str)
        ensures
            r@ == self@,
    {
        self.data.as_str()
    }

    /// The bytes this sequence stands for, or `InvalidHex`.
    pub fn bytes(&self) -> (r: Result<Vec<u8>, Error>)
        ensures
            match r {
                Ok(v) => hex_decodes(self@) && v@ == hex_bytes(self@),
                Err(e) => !hex_decodes(self@) && e == Error::InvalidHex,
            },
    {
        hex_decode(self.data.as_str())
    }
}

} // verus!
