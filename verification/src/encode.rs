//! Standard Base64 (RFC 4648, with `=` padding) through the `base64` crate.

use vstd::prelude::*;
use base64::Engine;

verus! {

/// The Base64 alphabet: `A`-`Z`, `a`-`z`, `0`-`9`, `+`, `/`.
pub open spec fn b64_char(v: nat) -> char {
    if v < 26 {
        (('A' as u32) + v) as char
    } else if v < 52 {
        (('a' as u32) + v - 26) as char
    } else if v < 62 {
        (('0' as u32) + v - 52) as char
    } else if v == 62 {
        '+'
    } else {
        '/'
    }
}

/// Standard Base64 of a byte sequence: each group of three bytes becomes four
/// characters of six bits each; a final group of one or two bytes is padded with `=`.
pub open spec fn base64_text(b: Seq<u8>) -> Seq<char>
    decreases b.len(),
{
    if b.len() == 0 {
        Seq::empty()
    } else if b.len() == 1 {
        seq![b64_char(b[0] as nat / 4), b64_char((b[0] as nat % 4) * 16), '=', '=']
    } else if b.len() == 2 {
        seq![
            b64_char(b[0] as nat / 4),
            b64_char((b[0] as nat % 4) * 16 + b[1] as nat / 16),
            b64_char((b[1] as nat % 16) * 4),
            '=',
        ]
    } else {
        seq![
            b64_char(b[0] as nat / 4),
            b64_char((b[0] as nat % 4) * 16 + b[1] as nat / 16),
            b64_char((b[1] as nat % 16) * 4 + b[2] as nat / 64),
            b64_char(b[2] as nat % 64),
        ] + base64_text(b.skip(3))
    }
}

/// The six-bit value of a Base64 alphabet character (0 for any other character).
pub open spec fn b64_value(c: char) -> nat {
    if 'A' <= c && c <= 'Z' {
        (c as u32 - 'A' as u32) as nat
    } else if 'a' <= c && c <= 'z' {
        (c as u32 - 'a' as u32 + 26) as nat
    } else if '0' <= c && c <= '9' {
        (c as u32 - '0' as u32 + 52) as nat
    } else if c == '+' {
        62
    } else if c == '/' {
        63
    } else {
        0
    }
}

/// The bytes that padded standard Base64 text stands for: each group of four
/// characters gives three bytes, or fewer where the group ends in `=`.
pub open spec fn base64_bytes(t: Seq<char>) -> Seq<u8>
    decreases t.len(),
{
    if t.len() < 4 {
        Seq::empty()
    } else {
        let a = b64_value(t[0]);
        let b = b64_value(t[1]);
        let c = b64_value(t[2]);
        let d = b64_value(t[3]);
        let first = (a * 4 + b / 16) as u8;
        let second = ((b % 16) * 16 + c / 4) as u8;
        let third = ((c % 4) * 64 + d) as u8;
        if t[2] == '=' {
            seq![first]
        } else if t[3] == '=' {
            seq![first, second]
        } else {
            seq![first, second, third] + base64_bytes(t.skip(4))
        }
    }
}

proof fn lemma_b64_char_value(v: nat)
    requires
        v < 64,
    ensures
        b64_value(b64_char(v)) == v,
        b64_char(v) != '=',
{
}

proof fn lemma_byte_split(x: int, y: int, z: int)
    requires
        0 <= x,
        0 <= y,
        0 <= z,
        x < 256,
        y < 256,
        z < 256,
    ensures
        (x / 4) * 4 + ((x % 4) * 16 + y / 16) / 16 == x,
        (((x % 4) * 16 + y / 16) % 16) * 16 + ((y % 16) * 4 + z / 64) / 4 == y,
        (((y % 16) * 4 + z / 64) % 4) * 64 + z % 64 == z,
        x / 4 < 64,
        (x % 4) * 16 + y / 16 < 64,
        (y % 16) * 4 + z / 64 < 64,
        z % 64 < 64,
{
}

/// Decoding Base64 gives back the bytes that were encoded.
pub proof fn lemma_base64_round_trip(b: Seq<u8>)
    ensures
        base64_bytes(base64_text(b)) == b,
    decreases b.len(),
{
    let t = base64_text(b);
    if b.len() == 0 {
    } else if b.len() == 1 {
        lemma_byte_split(b[0] as int, 0, 0);
        lemma_b64_char_value(b[0] as nat / 4);
        lemma_b64_char_value((b[0] as nat % 4) * 16);
        assert(base64_bytes(t) =~= b);
    } else if b.len() == 2 {
        lemma_byte_split(b[0] as int, b[1] as int, 0);
        lemma_b64_char_value(b[0] as nat / 4);
        lemma_b64_char_value((b[0] as nat % 4) * 16 + b[1] as nat / 16);
        lemma_b64_char_value((b[1] as nat % 16) * 4);
        assert(base64_bytes(t) =~= b);
    } else {
        lemma_byte_split(b[0] as int, b[1] as int, b[2] as int);
        lemma_b64_char_value(b[0] as nat / 4);
        lemma_b64_char_value((b[0] as nat % 4) * 16 + b[1] as nat / 16);
        lemma_b64_char_value((b[1] as nat % 16) * 4 + b[2] as nat / 64);
        lemma_b64_char_value(b[2] as nat % 64);
        lemma_base64_round_trip(b.skip(3));
        assert(t.skip(4) =~= base64_text(b.skip(3)));
        assert(base64_bytes(t) =~= b);
    }
}

/// `base64::engine::general_purpose::STANDARD.encode`. Claims the standard
/// padded encoding described by `base64_text`.
#[verifier::external_body]
pub(crate) fn base64_encode(bytes: &[u8]) -> (s: String)
    ensures
        s@ == base64_text(bytes@),
{
    base64::engine::general_purpose::STANDARD.encode(bytes)
}

} // verus!
