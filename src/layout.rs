use vstd::prelude::*;
use vstd::utf8::{
    decode_utf8, encode_scalar, encode_utf8, encode_utf8_decode_utf8, encode_utf8_valid_utf8,
    valid_utf8,
};
use byteorder::{ByteOrder, LittleEndian};

use crate::error::Dtm2txtError;

verus! {

/// The value of bytes read least significant first.
pub open spec fn le_value(s: Seq<u8>) -> nat
    decreases s.len(),
{
    if s.len() == 0 {
        0
    } else {
        s[0] as nat + 256 * le_value(s.drop_first())
    }
}

/// The `k` low bytes of `n`, least significant first.
pub open spec fn le_bytes(n: nat, k: nat) -> Seq<u8>
    decreases k,
{
    if k == 0 {
        seq![]
    } else {
        seq![(n % 256) as u8] + le_bytes(n / 256, (k - 1) as nat)
    }
}

/// `256` to the power `k`: one more than the largest value `k` bytes hold.
pub open spec fn byte_bound(k: nat) -> nat
    decreases k,
{
    if k == 0 {
        1
    } else {
        256 * byte_bound((k - 1) as nat)
    }
}

/// Reading back the `k` bytes written for `n` gives `n`, when `n` fits in them.
pub proof fn lemma_le_round_trip(n: nat, k: nat)
    requires
        n < byte_bound(k),
    ensures
        le_bytes(n, k).len() == k,
        le_value(le_bytes(n, k)) == n,
    decreases k,
{
    if k > 0 {
        let b = byte_bound((k - 1) as nat);
        assert(n / 256 < b) by (nonlinear_arith)
            requires
                n < 256 * b,
        ;
        lemma_le_round_trip(n / 256, (k - 1) as nat);
        let s = le_bytes(n, k);
        assert(s.drop_first() =~= le_bytes(n / 256, (k - 1) as nat));
        assert(n == (n % 256) + 256 * (n / 256)) by (nonlinear_arith);
    }
}

pub proof fn lemma_u64_bound()
    ensures
        byte_bound(8) == 0x1_0000_0000_0000_0000,
        byte_bound(4) == 0x1_0000_0000,
{
    reveal_with_fuel(byte_bound, 9);
}

/// Relies on byteorder's `LittleEndian::read_u64`: the eight bytes at `pos`,
/// least significant first.
#[verifier::external_body]
pub(crate) fn read_u64_le(buf: &[u8], pos: usize) -> (r: u64)
    requires
        pos + 8 <= buf@.len(),
    ensures
        r as nat == le_value(buf@.subrange(pos as int, pos + 8)),
{
    LittleEndian::read_u64(&buf[pos..])
}

/// Relies on byteorder's `LittleEndian::read_u32`: the four bytes at `pos`,
/// least significant first.
#[verifier::external_body]
pub(crate) fn read_u32_le(buf: &[u8], pos: usize) -> (r: u32)
    requires
        pos + 4 <= buf@.len(),
    ensures
        r as nat == le_value(buf@.subrange(pos as int, pos + 4)),
{
    LittleEndian::read_u32(&buf[pos..])
}

/// Relies on byteorder's `LittleEndian::write_u64`: the eight bytes of `n`,
/// least significant first.
#[verifier::external_body]
pub(crate) fn u64_le_bytes(n: u64) -> (r: [u8; 8])
    ensures
        r@ == le_bytes(n as nat, 8),
{
    let mut buf = [0u8; 8];
    LittleEndian::write_u64(&mut buf, n);
    buf
}

/// Relies on byteorder's `LittleEndian::write_u32`: the four bytes of `n`,
/// least significant first.
#[verifier::external_body]
pub(crate) fn u32_le_bytes(n: u32) -> (r: [u8; 4])
    ensures
        r@ == le_bytes(n as nat, 4),
{
    let mut buf = [0u8; 4];
    LittleEndian::write_u32(&mut buf, n);
    buf
}

/// Declares `std::string::FromUtf8Error`, the error of `String::from_utf8`,
/// which the library only tells apart from success.
#[verifier::external_type_specification]
#[verifier::external_body]
pub struct ExFromUtf8Error(std::string::FromUtf8Error);

/// `String::from_utf8` accepts exactly the valid UTF-8 byte sequences, and the
/// string it returns holds the characters those bytes encode.
pub assume_specification[ String::from_utf8 ](vec: Vec<u8>) -> (r: Result<
    String,
    std::string::FromUtf8Error,
>)
    ensures
        r is Ok <==> valid_utf8(vec@),
        r is Ok ==> r->Ok_0@ == decode_utf8(vec@),
;

/// `s` without its trailing zero bytes.
pub open spec fn trim_zeros(s: Seq<u8>) -> Seq<u8>
    decreases s.len(),
{
    if s.len() > 0 && s.last() == 0 {
        trim_zeros(s.drop_last())
    } else {
        s
    }
}

/// The string a fixed-width field holds: its bytes up to the trailing zero
/// padding, read as UTF-8; `None` where they are not valid UTF-8.
pub open spec fn string_field(raw: Seq<u8>) -> Option<Seq<char>> {
    let t = trim_zeros(raw);
    if valid_utf8(t) {
        Some(decode_utf8(t))
    } else {
        None
    }
}

/// Whether `s` fits in a field of `width` bytes.
pub open spec fn fits(s: Seq<char>, width: nat) -> bool {
    encode_utf8(s).len() <= width
}

/// The bytes of a fixed-width field holding `s`: its UTF-8 bytes, then zeros.
pub open spec fn str_bytes(s: Seq<char>, width: nat) -> Seq<u8> {
    encode_utf8(s) + Seq::new((width - encode_utf8(s).len()) as nat, |i: int| 0u8)
}

/// Whether `s` does not end in a NUL character, which the zero padding of a
/// fixed-width field could not be told apart from.
pub open spec fn no_trailing_nul(s: Seq<char>) -> bool {
    s.len() == 0 || s.last() != '\0'
}

proof fn lemma_scalar_last_byte(c: char)
    requires
        c != '\0',
    ensures
        encode_scalar(c as u32).len() > 0,
        encode_scalar(c as u32).last() != 0,
{
    let v = c as u32;
    assert(v != 0 ==> (v & 0x7F) as u8 != 0 || v > 0x7F) by (bit_vector);
    assert((0x80u8 | (v & 0x3F) as u8) != 0) by (bit_vector);
    assert(c as u32 != 0);
}

/// A string that does not end in NUL has a UTF-8 encoding that does not end in
/// a zero byte.
proof fn lemma_utf8_last_byte(s: Seq<char>)
    requires
        s.len() > 0,
        s.last() != '\0',
    ensures
        encode_utf8(s).len() > 0,
        encode_utf8(s).last() != 0,
    decreases s.len(),
{
    let rest = s.drop_first();
    if s.len() == 1 {
        lemma_scalar_last_byte(s[0]);
        assert(encode_utf8(rest) =~= Seq::<u8>::empty());
        assert(encode_utf8(s) =~= encode_scalar(s[0] as u32));
    } else {
        assert(rest.last() == s.last());
        lemma_utf8_last_byte(rest);
    }
}

proof fn lemma_trim_padding(e: Seq<u8>, k: nat)
    requires
        e.len() == 0 || e.last() != 0,
    ensures
        trim_zeros(e + Seq::new(k, |i: int| 0u8)) == e,
    decreases k,
{
    let padded = e + Seq::new(k, |i: int| 0u8);
    if k == 0 {
        assert(padded =~= e);
    } else {
        assert(padded.drop_last() =~= e + Seq::new((k - 1) as nat, |i: int| 0u8));
        lemma_trim_padding(e, (k - 1) as nat);
    }
}

/// A fixed-width field holding a string that fits takes exactly its width.
pub proof fn lemma_str_bytes_len(s: Seq<char>, width: nat)
    requires
        fits(s, width),
    ensures
        str_bytes(s, width).len() == width,
{
}

/// A fixed-width field written for a string that fits and does not end in NUL
/// reads back as that string.
pub proof fn lemma_fixed_string_round_trip(s: Seq<char>, width: nat)
    requires
        fits(s, width),
        no_trailing_nul(s),
    ensures
        str_bytes(s, width).len() == width,
        string_field(str_bytes(s, width)) == Some(s),
{
    let e = encode_utf8(s);
    if s.len() > 0 {
        lemma_utf8_last_byte(s);
    } else {
        assert(e =~= Seq::<u8>::empty());
    }
    lemma_trim_padding(e, (width - e.len()) as nat);
    encode_utf8_valid_utf8(s);
    encode_utf8_decode_utf8(s);
}

/// Reads the fixed-width string field of `len` bytes at `pos`: trailing zero
/// bytes are dropped and the rest must be UTF-8.
pub fn read_string(bytes: &[u8], pos: usize, len: usize) -> (r: Result<String, Dtm2txtError>)
    requires
        pos + len <= bytes@.len(),
    ensures
        match r {
            Ok(s) => string_field(bytes@.subrange(pos as int, pos + len)) == Some(s@),
            Err(e) => string_field(bytes@.subrange(pos as int, pos + len)) is None
                && e == Dtm2txtError::FromUtf8Error,
        },
{
    let ghost raw = bytes@.subrange(pos as int, pos + len);
    let mut buffer: Vec<u8> = Vec::new();
    let n = bytes.len();
    let end: usize = pos + len;
    let mut i: usize = pos;
    while i < end
        invariant
            pos <= i <= end,
            end == pos + len,
            end <= bytes@.len(),
            buffer@ == bytes@.subrange(pos as int, i as int),
        decreases end - i,
    {
        buffer.push(bytes[i]);
        i = i + 1;
        assert(buffer@ =~= bytes@.subrange(pos as int, i as int));
    }
    while buffer.len() > 0 && buffer[buffer.len() - 1] == 0
        invariant
            trim_zeros(buffer@) == trim_zeros(raw),
        decreases buffer.len(),
    {
        buffer.pop();
    }
    assert(trim_zeros(buffer@) == buffer@);
    match String::from_utf8(buffer) {
        Ok(s) => Ok(s),
        Err(_) => Err(Dtm2txtError::FromUtf8Error),
    }
}

/// Appends `val` as a fixed-width field of `len` bytes: its UTF-8 bytes, then
/// zero padding. Fails, appending nothing, where `val` is longer than `len` bytes.
pub fn write_str(out: &mut Vec<u8>, val: &str, len: usize) -> (r: Result<(), Dtm2txtError>)
    ensures
        r is Ok <==> fits(val@, len as nat),
        r is Ok ==> final(out)@ == old(out)@ + str_bytes(val@, len as nat),
        r is Err ==> r == Err::<(), Dtm2txtError>(Dtm2txtError::StringTooLong) && final(out)@
            == old(out)@,
{
    let bytes = val.as_bytes();
    if bytes.len() > len {
        return Err(Dtm2txtError::StringTooLong);
    }
    let ghost start = out@;
    out.extend_from_slice(bytes);
    let pad = len - bytes.len();
    let mut i: usize = 0;
    while i < pad
        invariant
            i <= pad,
            out@ == start + bytes@ + Seq::new(i as nat, |j: int| 0u8),
        decreases pad - i,
    {
        out.push(0);
        i = i + 1;
        assert(out@ =~= start + bytes@ + Seq::new(i as nat, |j: int| 0u8));
    }
    assert(out@ =~= start + str_bytes(val@, len as nat));
    Ok(())
}

/// Appends all of `b` to `out`.
pub fn push_bytes(out: &mut Vec<u8>, b: &[u8])
    ensures
        final(out)@ == old(out)@ + b@,
{
    let ghost start = out@;
    out.extend_from_slice(b);
    assert(out@ =~= start + b@);
}

/// The `N` bytes at `pos`, as an array.
pub fn read_bytes<const N: usize>(bytes: &[u8], pos: usize) -> (r: [u8; N])
    requires
        pos + N <= bytes@.len(),
    ensures
        r@ == bytes@.subrange(pos as int, pos + N),
{
    let mut buffer = [0u8; N];
    let len = bytes.len();
    let mut i: usize = 0;
    while i < N
        invariant
            i <= N,
            len == bytes@.len(),
            pos + N <= bytes@.len(),
            buffer@.len() == N,
            forall|j: int| 0 <= j < i ==> buffer@[j] == bytes@[pos + j],
        decreases N - i,
    {
        buffer[i] = bytes[pos + i];
        i = i + 1;
    }
    assert(buffer@ =~= bytes@.subrange(pos as int, pos + N));
    buffer
}

} // verus!
