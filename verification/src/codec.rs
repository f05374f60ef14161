//! Standard base64 (RFC 4648) as a specification, and the `base64` crate's
//! engine that encodes and decodes it.
use vstd::prelude::*;
use base64::Engine;

verus! {

/// The digit for the six-bit value `v` in the standard base64 alphabet
/// `A-Z a-z 0-9 + /`.
pub open spec fn base64_digit(v: int) -> char {
    if v < 26 {
        ('A' as int + v) as char
    } else if v < 52 {
        ('a' as int + (v - 26)) as char
    } else if v < 62 {
        ('0' as int + (v - 52)) as char
    } else if v == 62 {
        '+'
    } else {
        '/'
    }
}

/// Standard base64 with `=` padding (RFC 4648, section 4): each group of
/// three bytes becomes four digits of six bits each, most significant first;
/// a last group of one or two bytes is filled with zero bits and padded to
/// four characters with `=`.
pub open spec fn base64_standard_encode(b: Seq<u8>) -> Seq<char>
    decreases b.len(),
{
    let x = b[0] as int;
    let y = b[1] as int;
    let z = b[2] as int;
    if b.len() == 0 {
        Seq::empty()
    } else if b.len() == 1 {
        seq![base64_digit(x / 4), base64_digit((x % 4) * 16), '=', '=']
    } else if b.len() == 2 {
        seq![base64_digit(x / 4), base64_digit((x % 4) * 16 + y / 16), base64_digit((y % 16) * 4), '=']
    } else {
        seq![
            base64_digit(x / 4),
            base64_digit((x % 4) * 16 + y / 16),
            base64_digit((y % 16) * 4 + z / 64),
            base64_digit(z % 64),
        ] + base64_standard_encode(b.skip(3))
    }
}

/// Standard base64 decoding with canonical padding required and no stray
/// trailing bits: the bytes whose encoding is `text`, or `None` when no bytes
/// encode to `text`. Encoding is one to one
/// ([`lemma_base64_encode_injective`]), so those bytes are unique.
pub open spec fn base64_standard_decode(text: Seq<char>) -> Option<Seq<u8>> {
    if exists|b: Seq<u8>| base64_standard_encode(b) == text {
        Some(choose|b: Seq<u8>| base64_standard_encode(b) == text)
    } else {
        None
    }
}

proof fn lemma_encode_len(b: Seq<u8>)
    ensures
        b.len() == 0 ==> base64_standard_encode(b).len() == 0,
        b.len() > 0 ==> base64_standard_encode(b).len() >= 4,
{
}

/// Two byte strings with the same standard base64 encoding are equal.
pub proof fn lemma_base64_encode_injective(a: Seq<u8>, b: Seq<u8>)
    requires
        base64_standard_encode(a) == base64_standard_encode(b),
    ensures
        a == b,
    decreases a.len(),
{
    let ea = base64_standard_encode(a);
    let eb = base64_standard_encode(b);
    lemma_encode_len(a);
    lemma_encode_len(b);
    if a.len() == 0 || b.len() == 0 {
        assert(a.len() == 0 && b.len() == 0);
        assert(a =~= b);
        return;
    }
    let x = a[0] as int;
    let u = b[0] as int;
    assert(ea[0] == base64_digit(x / 4));
    assert(eb[0] == base64_digit(u / 4));
    lemma_digit_injective(x / 4, u / 4);
    if a.len() == 1 || b.len() == 1 {
        // a third character is `=` for one byte and a digit for more
        assert(a.len() == 1 && b.len() == 1);
        lemma_digit_injective((x % 4) * 16, (u % 4) * 16);
        lemma_bytes_from_digits(x, u, 0, 0);
        assert(a =~= b);
        return;
    }
    let y = a[1] as int;
    let v = b[1] as int;
    assert(ea[1] == base64_digit((x % 4) * 16 + y / 16));
    assert(eb[1] == base64_digit((u % 4) * 16 + v / 16));
    lemma_digit_injective((x % 4) * 16 + y / 16, (u % 4) * 16 + v / 16);
    if a.len() == 2 || b.len() == 2 {
        // a fourth character is `=` for two bytes and a digit for more
        assert(a.len() == 2 && b.len() == 2);
        lemma_digit_injective((y % 16) * 4, (v % 16) * 4);
        lemma_bytes_from_digits(x, u, y, v);
        assert(a =~= b);
        return;
    }
    let z = a[2] as int;
    let w = b[2] as int;
    assert(ea[2] == base64_digit((y % 16) * 4 + z / 64));
    assert(eb[2] == base64_digit((v % 16) * 4 + w / 64));
    assert(ea[3] == base64_digit(z % 64));
    assert(eb[3] == base64_digit(w % 64));
    lemma_digit_injective((y % 16) * 4 + z / 64, (v % 16) * 4 + w / 64);
    lemma_digit_injective(z % 64, w % 64);
    lemma_bytes_from_digits(x, u, y, v);
    lemma_last_byte(y, v, z, w);
    assert(ea.skip(4) =~= base64_standard_encode(a.skip(3)));
    assert(eb.skip(4) =~= base64_standard_encode(b.skip(3)));
    lemma_base64_encode_injective(a.skip(3), b.skip(3));
    assert(a =~= seq![a[0], a[1], a[2]] + a.skip(3));
    assert(b =~= seq![b[0], b[1], b[2]] + b.skip(3));
}

proof fn lemma_bytes_from_digits(x: int, u: int, y: int, v: int)
    requires
        0 <= x < 256,
        0 <= u < 256,
        0 <= y < 256,
        0 <= v < 256,
        x / 4 == u / 4,
        (x % 4) * 16 + y / 16 == (u % 4) * 16 + v / 16,
    ensures
        x == u,
        y / 16 == v / 16,
{
    assert(x % 4 == u % 4 && y / 16 == v / 16) by (nonlinear_arith)
        requires
            0 <= y < 256,
            0 <= v < 256,
            (x % 4) * 16 + y / 16 == (u % 4) * 16 + v / 16,
            0 <= x % 4 < 4,
            0 <= u % 4 < 4,
    ;
}

proof fn lemma_last_byte(y: int, v: int, z: int, w: int)
    requires
        0 <= y < 256,
        0 <= v < 256,
        0 <= z < 256,
        0 <= w < 256,
        y / 16 == v / 16,
        (y % 16) * 4 + z / 64 == (v % 16) * 4 + w / 64,
        z % 64 == w % 64,
    ensures
        y == v,
        z == w,
{
    assert(y % 16 == v % 16 && z / 64 == w / 64) by (nonlinear_arith)
        requires
            0 <= z < 256,
            0 <= w < 256,
            (y % 16) * 4 + z / 64 == (v % 16) * 4 + w / 64,
            0 <= y % 16 < 16,
            0 <= v % 16 < 16,
    ;
}

proof fn lemma_digit_injective(v: int, w: int)
    requires
        0 <= v < 64,
        0 <= w < 64,
    ensures
        base64_digit(v) == base64_digit(w) <==> v == w,
        base64_digit(v) != '=',
{
}

/// Decoding the encoding of `b` gives `b` back.
pub proof fn law_base64_decode_reads_back(b: Seq<u8>)
    ensures
        base64_standard_decode(base64_standard_encode(b)) == Some(b),
{
    lemma_base64_decode_of_encoding(b, base64_standard_encode(b));
}

/// Text that is the encoding of `b` decodes to `b`.
pub proof fn lemma_base64_decode_of_encoding(b: Seq<u8>, text: Seq<char>)
    requires
        base64_standard_encode(b) == text,
    ensures
        base64_standard_decode(text) == Some(b),
{
    let c = choose|c: Seq<u8>| base64_standard_encode(c) == text;
    lemma_base64_encode_injective(b, c);
}

/// `STANDARD.encode(bytes)`: the standard padded base64 of `bytes`.
#[verifier::external_body]
pub(crate) fn base64_encode(bytes: &[u8]) -> (r: String)
    ensures
        r@ == base64_standard_encode(bytes@),
{
    base64::engine::general_purpose::STANDARD.encode(bytes)
}

/// `STANDARD.decode(text)`, with the error mapped to `None`. The engine
/// requires canonical padding and rejects stray trailing bits, so it
/// succeeds exactly on the texts that are some bytes' encoding, and then
/// gives those bytes.
#[verifier::external_body]
pub(crate) fn base64_decode(text: &str) -> (r: Option<Vec<u8>>)
    ensures
        r is Some == exists|b: Seq<u8>| base64_standard_encode(b) == text@,
        r matches Some(v) ==> base64_standard_encode(v@) == text@,
{
    base64::engine::general_purpose::STANDARD.decode(text).ok()
}

} // verus!
