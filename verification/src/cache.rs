//! The wire codec for storing a cell index in a remote key-value cache.
//!
//! The wire form is exactly 8 bytes: the big-endian unsigned encoding of the
//! raw 64-bit cell word. A lowercase hexadecimal text of those same 8 bytes
//! is the alternate, textual wire form; the two must never be mixed within
//! one deployment. Decoding never truncates or pads: a buffer of any other
//! length is refused.

use vstd::prelude::*;
use crate::cell::{lemma_cells_equal, H3Cell};
use crate::errors::CellError;

verus! {

/// Byte `i` (0 is the most significant) of the big-endian form of `w`.
pub open spec fn be_byte(w: u64, i: int) -> u8
    recommends
        0 <= i < 8,
{
    ((w >> ((56 - 8 * i) as u64)) & 0xFF) as u8
}

/// The 8-byte big-endian form of `w`.
pub open spec fn be_bytes_of(w: u64) -> Seq<u8> {
    Seq::new(8, |i: int| be_byte(w, i))
}

/// The word read back from an 8-byte big-endian buffer.
pub open spec fn be_word_of(b: Seq<u8>) -> u64
    recommends
        b.len() == 8,
{
    ((b[0] as u64) << 56) | ((b[1] as u64) << 48) | ((b[2] as u64) << 40) | ((b[3] as u64) << 32)
        | ((b[4] as u64) << 24) | ((b[5] as u64) << 16) | ((b[6] as u64) << 8) | (b[7] as u64)
}

/// Encodes a cell as exactly 8 bytes, big-endian.
pub fn encode(cell: &H3Cell) -> (r: Vec<u8>)
    ensures
        r@ == be_bytes_of(cell.word()),
{
    let w = cell.as_u64();
    let mut out: Vec<u8> = Vec::new();
    out.push(((w >> 56) & 0xFF) as u8);
    out.push(((w >> 48) & 0xFF) as u8);
    out.push(((w >> 40) & 0xFF) as u8);
    out.push(((w >> 32) & 0xFF) as u8);
    out.push(((w >> 24) & 0xFF) as u8);
    out.push(((w >> 16) & 0xFF) as u8);
    out.push(((w >> 8) & 0xFF) as u8);
    out.push((w & 0xFF) as u8);
    proof {
        assert(((w >> 0) & 0xFF) as u8 == (w & 0xFF) as u8) by (bit_vector);
        assert(out@ =~= be_bytes_of(cell.word()));
    }
    out
}

/// Decodes an 8-byte big-endian buffer into a cell; a buffer of any other
/// length fails with `TypeMismatch`. No check beyond the length is made:
/// the buffer is expected to hold a value that `encode` produced.
pub fn decode(bytes: &Vec<u8>) -> (r: Result<H3Cell, CellError>)
    ensures
        bytes@.len() == 8 ==> r is Ok && (r->Ok_0).word() == be_word_of(bytes@),
        bytes@.len() != 8 ==> r == Err::<H3Cell, CellError>(CellError::TypeMismatch),
{
    if bytes.len() != 8 {
        return Err(CellError::TypeMismatch);
    }
    let w: u64 = ((bytes[0] as u64) << 56) | ((bytes[1] as u64) << 48) | ((bytes[2] as u64) << 40)
        | ((bytes[3] as u64) << 32) | ((bytes[4] as u64) << 24) | ((bytes[5] as u64) << 16) | ((
    bytes[6] as u64) << 8) | (bytes[7] as u64);
    Ok(H3Cell::new_unchecked(w))
}

/// The 8-byte big-endian wire form is lossless: reading the bytes of a word
/// back gives the word.
pub proof fn lemma_wire_roundtrip(w: u64)
    ensures
        be_word_of(be_bytes_of(w)) == w,
{
    let b0 = be_byte(w, 0);
    let b1 = be_byte(w, 1);
    let b2 = be_byte(w, 2);
    let b3 = be_byte(w, 3);
    let b4 = be_byte(w, 4);
    let b5 = be_byte(w, 5);
    let b6 = be_byte(w, 6);
    let b7 = be_byte(w, 7);
    assert(((b0 as u64) << 56) | ((b1 as u64) << 48) | ((b2 as u64) << 40) | ((b3 as u64) << 32)
        | ((b4 as u64) << 24) | ((b5 as u64) << 16) | ((b6 as u64) << 8) | (b7 as u64) == w)
        by (bit_vector)
        requires
            b0 == ((w >> 56) & 0xFF) as u8,
            b1 == ((w >> 48) & 0xFF) as u8,
            b2 == ((w >> 40) & 0xFF) as u8,
            b3 == ((w >> 32) & 0xFF) as u8,
            b4 == ((w >> 24) & 0xFF) as u8,
            b5 == ((w >> 16) & 0xFF) as u8,
            b6 == ((w >> 8) & 0xFF) as u8,
            b7 == ((w >> 0) & 0xFF) as u8,
    ;
}

/// Cache round trip: a cell whose word was read back from that cell's own
/// byte encoding is the cell itself.
pub proof fn lemma_cache_roundtrip(c: H3Cell, q: H3Cell)
    requires
        q.word() == be_word_of(be_bytes_of(c.word())),
    ensures
        q == c,
{
    lemma_wire_roundtrip(c.word());
    lemma_cells_equal(q, c);
}

/// The lowercase hexadecimal digit character of a nibble.
pub open spec fn hex_char_of(n: u8) -> char
    recommends
        n < 16,
{
    if n == 0 {
        '0'
    } else if n == 1 {
        '1'
    } else if n == 2 {
        '2'
    } else if n == 3 {
        '3'
    } else if n == 4 {
        '4'
    } else if n == 5 {
        '5'
    } else if n == 6 {
        '6'
    } else if n == 7 {
        '7'
    } else if n == 8 {
        '8'
    } else if n == 9 {
        '9'
    } else if n == 10 {
        'a'
    } else if n == 11 {
        'b'
    } else if n == 12 {
        'c'
    } else if n == 13 {
        'd'
    } else if n == 14 {
        'e'
    } else {
        'f'
    }
}

/// The lowercase hexadecimal text of a byte sequence: two digit characters
/// per byte, high nibble first.
pub open spec fn hex_of(bytes: Seq<u8>) -> Seq<char> {
    Seq::new(
        bytes.len() * 2,
        |i: int|
            if i % 2 == 0 {
                hex_char_of(bytes[i / 2] >> 4)
            } else {
                hex_char_of(bytes[i / 2] & 0x0F)
            },
    )
}

/// The nibble value of a hexadecimal digit character of either case, or 16
/// for any other character.
pub open spec fn hex_val_of(c: char) -> u8 {
    if c == '0' {
        0
    } else if c == '1' {
        1
    } else if c == '2' {
        2
    } else if c == '3' {
        3
    } else if c == '4' {
        4
    } else if c == '5' {
        5
    } else if c == '6' {
        6
    } else if c == '7' {
        7
    } else if c == '8' {
        8
    } else if c == '9' {
        9
    } else if c == 'a' || c == 'A' {
        10
    } else if c == 'b' || c == 'B' {
        11
    } else if c == 'c' || c == 'C' {
        12
    } else if c == 'd' || c == 'D' {
        13
    } else if c == 'e' || c == 'E' {
        14
    } else if c == 'f' || c == 'F' {
        15
    } else {
        16
    }
}

/// True iff `c` is a hexadecimal digit character of either case.
pub open spec fn is_hex_digit(c: char) -> bool {
    hex_val_of(c) < 16
}

/// True iff `s` is a well-formed hexadecimal text: even length, every
/// character a hexadecimal digit of either case.
pub open spec fn is_hex_text(s: Seq<char>) -> bool {
    s.len() % 2 == 0 && forall|i: int| 0 <= i < s.len() ==> is_hex_digit(#[trigger] s[i])
}

/// The bytes read back from an even-length hexadecimal text, high nibble
/// first.
pub open spec fn hex_bytes_of(s: Seq<char>) -> Seq<u8>
    recommends
        s.len() % 2 == 0,
        forall|i: int| 0 <= i < s.len() ==> is_hex_digit(#[trigger] s[i]),
{
    Seq::new(s.len() / 2, |i: int| (hex_val_of(s[2 * i]) * 16 + hex_val_of(s[2 * i + 1])) as u8)
}

/// Relies on `hex::encode`: the lowercase hexadecimal text of the bytes,
/// two digits per byte, high nibble first.
#[verifier::external_body]
fn hex_encode_bytes(b: &Vec<u8>) -> (r: String)
    ensures
        r@ == hex_of(b@),
{
    hex::encode(b)
}

/// Relies on `hex::decode`: it accepts exactly the texts of even length
/// made of hexadecimal digits of either case, and returns the decoded
/// bytes, high nibble first; its error is mapped to `TypeMismatch`.
#[verifier::external_body]
fn hex_decode_str(s: &str) -> (r: Result<Vec<u8>, CellError>)
    ensures
        is_hex_text(s@) ==> r is Ok && (r->Ok_0)@ == hex_bytes_of(s@),
        !is_hex_text(s@) ==> r is Err && r->Err_0 == CellError::TypeMismatch,
{
    match hex::decode(s) {
        Ok(v) => Ok(v),
        Err(_) => Err(CellError::TypeMismatch),
    }
}

/// Encodes a cell in the textual wire form: the lowercase hexadecimal text
/// of its 8-byte big-endian encoding.
pub fn encode_hex(cell: &H3Cell) -> (r: String)
    ensures
        r@ == hex_of(be_bytes_of(cell.word())),
{
    let bytes = encode(cell);
    hex_encode_bytes(&bytes)
}

/// Decodes the textual wire form: 16 hexadecimal digit characters of either
/// case. Any other text fails with `TypeMismatch`.
pub fn decode_hex(s: &str) -> (r: Result<H3Cell, CellError>)
    ensures
        is_hex_text(s@) && s@.len() == 16 ==> r is Ok && (r->Ok_0).word() == be_word_of(
            hex_bytes_of(s@),
        ),
        !(is_hex_text(s@) && s@.len() == 16) ==> r == Err::<H3Cell, CellError>(
            CellError::TypeMismatch,
        ),
    {
    let bytes = match hex_decode_str(s) {
        Ok(b) => b,
        Err(_) => {
            return Err(CellError::TypeMismatch);
        },
    };
    decode(&bytes)
}

/// Reading a nibble's hexadecimal digit character back gives the nibble.
proof fn lemma_hex_digit_roundtrip(n: u8)
    requires
        n < 16,
    ensures
        hex_val_of(hex_char_of(n)) == n,
{
}

/// The high and low nibble of a byte reassemble to the byte.
proof fn lemma_nibbles(x: u8)
    ensures
        (x >> 4) * 16 + (x & 0x0F) == x,
{
    assert((x >> 4) * 16 + (x & 0x0F) == x) by (bit_vector);
}

/// Textual wire round trip: the hexadecimal text of a word's bytes is 16
/// hexadecimal digits, and reading it back gives the same bytes, hence the
/// same word.
pub proof fn lemma_hex_roundtrip(w: u64)
    ensures
        hex_of(be_bytes_of(w)).len() == 16,
        is_hex_text(hex_of(be_bytes_of(w))),
        hex_bytes_of(hex_of(be_bytes_of(w))) == be_bytes_of(w),
        be_word_of(hex_bytes_of(hex_of(be_bytes_of(w)))) == w,
{
    let b = be_bytes_of(w);
    let s = hex_of(b);
    assert forall|i: int| 0 <= i < 16 implies is_hex_digit(#[trigger] s[i]) by {
        let x = b[i / 2];
        assert(x >> 4 < 16) by (bit_vector);
        assert(x & 0x0F < 16) by (bit_vector);
        if i % 2 == 0 {
            lemma_hex_digit_roundtrip(x >> 4);
        } else {
            lemma_hex_digit_roundtrip(x & 0x0F);
        }
    }
    assert forall|i: int| 0 <= i < 8 implies hex_bytes_of(s)[i] == b[i] by {
        let x = b[i];
        assert(x >> 4 < 16) by (bit_vector);
        assert(x & 0x0F < 16) by (bit_vector);
        lemma_hex_digit_roundtrip(x >> 4);
        lemma_hex_digit_roundtrip(x & 0x0F);
        assert((2 * i) % 2 == 0 && (2 * i) / 2 == i);
        assert((2 * i + 1) % 2 == 1 && (2 * i + 1) / 2 == i);
        lemma_nibbles(x);
    }
    assert(hex_bytes_of(s) =~= b);
    lemma_wire_roundtrip(w);
}

} // verus!
