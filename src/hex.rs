use vstd::prelude::*;
use vstd::utf8::{encode_utf8, is_ascii_chars, is_ascii_chars_encode_utf8};

use crate::dtm::ByteString;
use crate::error::HexError;
use crate::text::string_of;

verus! {

/// The upper-case hex digit of `n < 16`.
pub open spec fn hex_digit(n: int) -> char {
    if n == 0 {
        '0'
    } else if n == 1 {
        '1'
    } else if n == 2 {
        '2'
    } else if n == 3 {
        '3'
    } else if n == 4 {
        '4'
    } else if n == 5 {
        '5'
    } else if n == 6 {
        '6'
    } else if n == 7 {
        '7'
    } else if n == 8 {
        '8'
    } else if n == 9 {
        '9'
    } else if n == 10 {
        'A'
    } else if n == 11 {
        'B'
    } else if n == 12 {
        'C'
    } else if n == 13 {
        'D'
    } else if n == 14 {
        'E'
    } else {
        'F'
    }
}

/// The hex text of `b`: two upper-case digits per byte, most significant
/// nibble first, no separators.
pub open spec fn hex_text(b: Seq<u8>) -> Seq<char> {
    Seq::new(
        2 * b.len(),
        |i: int|
            if i % 2 == 0 {
                hex_digit(b[i / 2] as int / 16)
            } else {
                hex_digit(b[i / 2] as int % 16)
            },
    )
}

/// Whether the byte `c` is a hex digit, in either case.
pub open spec fn is_hex(c: u8) -> bool {
    (0x30 <= c <= 0x39) || (0x41 <= c <= 0x46) || (0x61 <= c <= 0x66)
}

/// The value of the hex digit `c`.
pub open spec fn nibble(c: u8) -> int {
    if c <= 0x39 {
        c - 0x30
    } else if c <= 0x46 {
        c - 0x41 + 10
    } else {
        c - 0x61 + 10
    }
}

/// What reading the text bytes `t` as `n` hex-encoded bytes gives: a wrong
/// length first, then a character that is not a hex digit, are errors.
pub open spec fn hex_decode(t: Seq<u8>, n: nat) -> Result<Seq<u8>, HexError> {
    if t.len() != 2 * n {
        Err(HexError::InvalidLength)
    } else if exists|i: int| 0 <= i < t.len() && !is_hex(#[trigger] t[i]) {
        Err(HexError::InvalidCharacter)
    } else {
        Ok(Seq::new(n, |i: int| (nibble(t[2 * i]) * 16 + nibble(t[2 * i + 1])) as u8))
    }
}

fn hex_char(n: u8) -> (c: char)
    requires
        n < 16,
    ensures
        c == hex_digit(n as int),
{
    match n {
        0 => '0',
        1 => '1',
        2 => '2',
        3 => '3',
        4 => '4',
        5 => '5',
        6 => '6',
        7 => '7',
        8 => '8',
        9 => '9',
        10 => 'A',
        11 => 'B',
        12 => 'C',
        13 => 'D',
        14 => 'E',
        _ => 'F',
    }
}

/// The upper-case hex text of `bytes`.
pub fn encode_hex(bytes: &[u8]) -> (r: String)
    ensures
        r@ == hex_text(bytes@),
{
    let mut chars: Vec<char> = Vec::new();
    let mut i: usize = 0;
    while i < bytes.len()
        invariant
            i <= bytes@.len(),
            chars@ =~= hex_text(bytes@.take(i as int)),
        decreases bytes@.len() - i,
    {
        let b = bytes[i];
        chars.push(hex_char(b / 16));
        chars.push(hex_char(b % 16));
        i = i + 1;
        assert(chars@ =~= hex_text(bytes@.take(i as int)));
    }
    assert(bytes@.take(i as int) =~= bytes@);
    string_of(chars)
}

fn hex_value(c: u8) -> (r: u8)
    requires
        is_hex(c),
    ensures
        r == nibble(c),
        r < 16,
{
    if c <= 0x39 {
        c - 0x30
    } else if c <= 0x46 {
        c - 0x41 + 10
    } else {
        c - 0x61 + 10
    }
}

/// Reads `n` bytes from their hex text: exactly `2 * n` hex digits, of either
/// case.
pub fn decode_hex(text: &str, n: usize) -> (r: Result<Vec<u8>, HexError>)
    ensures
        match r {
            Ok(v) => hex_decode(encode_utf8(text@), n as nat) == Ok::<Seq<u8>, HexError>(v@),
            Err(e) => hex_decode(encode_utf8(text@), n as nat) == Err::<Seq<u8>, HexError>(e),
        },
{
    let t = text.as_bytes();
    let tl = t.len();
    if tl / 2 != n || tl % 2 != 0 {
        return Err(HexError::InvalidLength);
    }
    let mut i: usize = 0;
    while i < t.len()
        invariant
            i <= t@.len(),
            t@ == encode_utf8(text@),
            t@.len() == 2 * n,
            forall|j: int| 0 <= j < i ==> is_hex(#[trigger] t@[j]),
        decreases t@.len() - i,
    {
        if !((0x30 <= t[i] && t[i] <= 0x39) || (0x41 <= t[i] && t[i] <= 0x46) || (0x61 <= t[i]
            && t[i] <= 0x66)) {
            return Err(HexError::InvalidCharacter);
        }
        i = i + 1;
    }
    let mut out: Vec<u8> = Vec::new();
    let mut k: usize = 0;
    while k < n
        invariant
            k <= n,
            tl == t@.len(),
            t@.len() == 2 * n,
            forall|j: int| 0 <= j < t@.len() ==> is_hex(#[trigger] t@[j]),
            out@ =~= Seq::new(k as nat, |j: int| (nibble(t@[2 * j]) * 16 + nibble(t@[2 * j + 1])) as u8),
        decreases n - k,
    {
        let hi = hex_value(t[2 * k]);
        let lo = hex_value(t[2 * k + 1]);
        out.push(hi * 16 + lo);
        k = k + 1;
    }
    Ok(out)
}

/// Hex text of `n` bytes always decodes back to those bytes.
pub proof fn lemma_hex_round_trip(b: Seq<u8>)
    ensures
        hex_decode(encode_utf8(hex_text(b)), b.len()) == Ok::<Seq<u8>, HexError>(b),
{
    let cs = hex_text(b);
    assert(is_ascii_chars(cs));
    is_ascii_chars_encode_utf8(cs);
    let t = encode_utf8(cs);
    assert forall|i: int| 0 <= i < t.len() implies is_hex(#[trigger] t[i]) by {
        assert(t[i] == cs[i] as u8);
    }
    let d = Seq::new(b.len(), |i: int| (nibble(t[2 * i]) * 16 + nibble(t[2 * i + 1])) as u8);
    assert forall|i: int| 0 <= i < b.len() implies d[i] == b[i] by {
        assert(t[2 * i] == cs[2 * i] as u8);
        assert(t[2 * i + 1] == cs[2 * i + 1] as u8);
        assert((2 * i) / 2 == i && (2 * i + 1) / 2 == i);
        assert((2 * i) % 2 == 0 && (2 * i + 1) % 2 == 1);
        assert(nibble(t[2 * i]) == b[i] as int / 16);
        assert(nibble(t[2 * i + 1]) == b[i] as int % 16);
    }
    assert(d =~= b);
}

impl<const N: usize> ByteString<N> {
    /// The field as upper-case hex text, two digits per byte.
    pub fn to_hex(&self) -> (r: String)
        ensures
            r@ == hex_text(self.0@),
    {
        encode_hex(self.0.as_slice())
    }

    /// Reads the field from its hex text: exactly `2 * N` hex digits, of
    /// either case.
    pub fn from_hex(text: &str) -> (r: Result<ByteString<N>, HexError>)
        ensures
            match r {
                Ok(v) => hex_decode(encode_utf8(text@), N as nat) == Ok::<Seq<u8>, HexError>(v.0@),
                Err(e) => hex_decode(encode_utf8(text@), N as nat) == Err::<Seq<u8>, HexError>(e),
            },
    {
        let v = match decode_hex(text, N) {
            Ok(v) => v,
            Err(e) => return Err(e),
        };
        let mut a = [0u8; N];
        let mut i: usize = 0;
        while i < N
            invariant
                i <= N,
                v@.len() == N,
                a@.len() == N,
                forall|j: int| 0 <= j < i ==> a@[j] == v@[j],
            decreases N - i,
        {
            a[i] = v[i];
            i = i + 1;
        }
        assert(a@ =~= v@);
        Ok(ByteString(a))
    }
}

} // verus!
