//! Digests and encodings of the release pipeline: SHA-256, hexadecimal,
//! UTF-16, Base64.

use base64::Engine;
use vstd::prelude::*;
use vstd::utf8::char_is_scalar;

verus! {

// ----- SHA-256 --------------------------------------------------------------

/// A running digest of the `ring` crate.
#[verifier::external_type_specification]
#[verifier::external_body]
pub struct ExDigestContext(ring::digest::Context);

/// The bytes that a running digest has taken in.
pub uninterp spec fn absorbed(c: ring::digest::Context) -> Seq<u8>;

/// Whether a running digest was made for SHA-256.
pub uninterp spec fn for_sha256(c: ring::digest::Context) -> bool;

/// The SHA-256 digest of some bytes.
pub uninterp spec fn sha256(data: Seq<u8>) -> Seq<u8>;

/// The number of bytes from which on SHA-256 is not defined: their number of
/// bits no longer fits 64 bits.
pub const SHA256_LIMIT: u64 = 0x2000_0000_0000_0000;

/// `ring::digest::Context::new` with `SHA256`: a digest that has taken in
/// nothing.
#[verifier::external_body]
pub(crate) fn digest_new() -> (c: ring::digest::Context)
    ensures
        absorbed(c) == Seq::<u8>::empty(),
        for_sha256(c),
{
    ring::digest::Context::new(&ring::digest::SHA256)
}

/// `ring::digest::Context::update`: the digest takes in all of `data`, behind
/// what it has taken in before.
#[verifier::external_body]
pub(crate) fn digest_update(c: &mut ring::digest::Context, data: &[u8])
    ensures
        absorbed(*final(c)) == absorbed(*old(c)) + data@,
        for_sha256(*final(c)) == for_sha256(*old(c)),
{
    c.update(data);
}

/// `ring::digest::Context::finish`: the digest of everything taken in. It
/// depends on those bytes alone, not on how they were divided. The call panics
/// where the input is too long for the algorithm.
#[verifier::external_body]
pub(crate) fn digest_finish(c: ring::digest::Context) -> (d: Vec<u8>)
    requires
        for_sha256(c),
        absorbed(c).len() < SHA256_LIMIT,
    ensures
        d@ == sha256(absorbed(c)),
        d@.len() == 32,
{
    c.finish().as_ref().to_vec()
}

// ----- hexadecimal ----------------------------------------------------------

/// The lower-case digit of a value below sixteen.
pub open spec fn hex_digit(v: int) -> char {
    if v < 10 {
        ('0' as int + v) as char
    } else {
        ('a' as int + (v - 10)) as char
    }
}

/// Two lower-case digits per byte.
pub open spec fn hex(bytes: Seq<u8>) -> Seq<char>
    decreases bytes.len(),
{
    if bytes.len() == 0 {
        Seq::empty()
    } else {
        hex(bytes.drop_last()).push(hex_digit(bytes.last() as int / 16)).push(
            hex_digit(bytes.last() as int % 16),
        )
    }
}

fn hex_char(v: u8) -> (c: char)
    requires
        v < 16,
    ensures
        c == hex_digit(v as int),
{
    if v < 10 {
        (48u8 + v) as char
    } else {
        (87u8 + v) as char
    }
}

pub fn hex_string(bytes: &Vec<u8>) -> (r: String)
    ensures
        r@ == hex(bytes@),
{
    let mut s = String::new();
    let mut i: usize = 0;
    while i < bytes.len()
        invariant
            0 <= i <= bytes.len(),
            s@ == hex(bytes@.take(i as int)),
        decreases bytes.len() - i,
    {
        assert(bytes@.take(i + 1).drop_last() =~= bytes@.take(i as int));
        let b: u8 = bytes[i];
        s.push(hex_char(b / 16));
        s.push(hex_char(b % 16));
        i += 1;
    }
    assert(bytes@.take(i as int) =~= bytes@);
    s
}

/// Two digests that are written alike are alike.
pub proof fn law_hex_loses_nothing(a: Seq<u8>, b: Seq<u8>)
    requires
        hex(a) == hex(b),
    ensures
        a == b,
    decreases a.len(),
{
    lemma_hex_len(a);
    lemma_hex_len(b);
    if a.len() > 0 {
        let x = a.last();
        let y = b.last();
        let n = hex(a).len();
        assert(hex(a)[n - 2] == hex_digit(x as int / 16));
        assert(hex(b)[n - 2] == hex_digit(y as int / 16));
        assert(hex(a)[n - 1] == hex_digit(x as int % 16));
        assert(hex(b)[n - 1] == hex_digit(y as int % 16));
        assert(x == y);
        assert(hex(a.drop_last()) =~= hex(a).take(n - 2));
        assert(hex(b.drop_last()) =~= hex(b).take(n - 2));
        law_hex_loses_nothing(a.drop_last(), b.drop_last());
        assert(a =~= a.drop_last().push(x));
        assert(b =~= b.drop_last().push(y));
    } else {
        assert(a =~= b);
    }
}

proof fn lemma_hex_len(a: Seq<u8>)
    ensures
        hex(a).len() == 2 * a.len(),
    decreases a.len(),
{
    if a.len() > 0 {
        lemma_hex_len(a.drop_last());
    }
}

/// What a lower-case hexadecimal digit is worth.
pub open spec fn digit_worth(c: char) -> int {
    if '0' <= c <= '9' {
        c as int - '0' as int
    } else {
        c as int - 'a' as int + 10
    }
}

/// A byte is written as two digits, the higher first, in lower case.
pub proof fn law_a_byte_is_two_digits(bytes: Seq<u8>, i: int)
    requires
        0 <= i < bytes.len(),
    ensures
        hex(bytes).len() == 2 * bytes.len(),
        16 * digit_worth(hex(bytes)[2 * i]) + digit_worth(hex(bytes)[2 * i + 1]) == bytes[i],
        '0' <= hex(bytes)[2 * i] <= '9' || 'a' <= hex(bytes)[2 * i] <= 'f',
        '0' <= hex(bytes)[2 * i + 1] <= '9' || 'a' <= hex(bytes)[2 * i + 1] <= 'f',
    decreases bytes.len(),
{
    let init = bytes.drop_last();
    if i < init.len() {
        law_a_byte_is_two_digits(init, i);
        assert(hex(bytes)[2 * i] == hex(init)[2 * i]);
        assert(hex(bytes)[2 * i + 1] == hex(init)[2 * i + 1]);
    } else {
        if init.len() > 0 {
            law_a_byte_is_two_digits(init, 0);
        } else {
            assert(hex(init).len() == 0);
        }
    }
}

// ----- UTF-16 ---------------------------------------------------------------

/// The two bytes of a code unit, low byte first.
pub open spec fn unit_bytes(u: int) -> Seq<u8> {
    seq![(u % 256) as u8, (u / 256) as u8]
}

/// A character as UTF-16: one code unit, or a surrogate pair.
pub open spec fn char_utf16(c: char) -> Seq<u8> {
    let v = c as int;
    if v < 0x1_0000 {
        unit_bytes(v)
    } else {
        unit_bytes(0xD800 + (v - 0x1_0000) / 1024) + unit_bytes(0xDC00 + (v - 0x1_0000) % 1024)
    }
}

pub open spec fn utf16(s: Seq<char>) -> Seq<u8>
    decreases s.len(),
{
    if s.len() == 0 {
        Seq::empty()
    } else {
        utf16(s.drop_last()) + char_utf16(s.last())
    }
}

/// The code unit that two bytes make, the low one first.
pub open spec fn unit_of(b: Seq<u8>, i: int) -> int {
    b[i] + 256 * b[i + 1]
}

/// A character reads back from its UTF-16: from one unit that is no surrogate,
/// or from a high and a low surrogate.
pub proof fn law_utf16_reads_back(c: char)
    ensures
        ({
            let b = char_utf16(c);
            let first = unit_of(b, 0);
            let second = unit_of(b, 2);
            &&& b.len() == 2 ==> first == c as int
            &&& b.len() == 4 ==> 0xD800 <= first < 0xDC00 && 0xDC00 <= second < 0xE000 && 0x1_0000
                + (first - 0xD800) * 1024 + (second - 0xDC00) == c as int
            &&& b.len() == 2 || b.len() == 4
            &&& b.len() == 2 <==> (c as int) < 0x1_0000
        }),
        forall|s: Seq<char>| #[trigger] utf16(s.push(c)) == utf16(s) + char_utf16(c),
{
    let v = c as int;
    let b = char_utf16(c);
    if v >= 0x1_0000 {
        let hi = 0xD800 + (v - 0x1_0000) / 1024;
        let lo = 0xDC00 + (v - 0x1_0000) % 1024;
        assert(b =~= seq![
            (hi % 256) as u8,
            (hi / 256) as u8,
            (lo % 256) as u8,
            (lo / 256) as u8,
        ]);
        assert(v <= 0x10_FFFF);
    }
    assert forall|s: Seq<char>| #[trigger] utf16(s.push(c)) == utf16(s) + char_utf16(c) by {
        assert(s.push(c).drop_last() =~= s);
    }
}

fn push_unit(out: &mut Vec<u8>, u: u32)
    requires
        u < 0x1_0000,
    ensures
        final(out)@ == old(out)@ + unit_bytes(u as int),
{
    out.push((u % 256) as u8);
    out.push((u / 256) as u8);
    assert(out@ =~= old(out)@ + unit_bytes(u as int));
}

fn code_point(c: char) -> (v: u32)
    ensures
        v == c as int,
        v <= 0x10_FFFF,
{
    proof {
        char_is_scalar(c);
        assert(0 <= c as int <= 0x10_FFFF);
    }
    c as u32
}

/// `s` in UTF-16, low bytes first.
pub fn utf16_bytes(s: &str) -> (out: Vec<u8>)
    ensures
        out@ == utf16(s@),
{
    let v = crate::text::chars_of(s);
    let mut out: Vec<u8> = Vec::new();
    let mut i: usize = 0;
    while i < v.len()
        invariant
            0 <= i <= v.len(),
            out@ == utf16(v@.take(i as int)),
        decreases v.len() - i,
    {
        assert(v@.take(i + 1).drop_last() =~= v@.take(i as int));
        let ghost before = out@;
        let c: u32 = code_point(v[i]);
        if c < 0x1_0000 {
            push_unit(&mut out, c);
        } else {
            push_unit(&mut out, 0xD800 + (c - 0x1_0000) / 1024);
            push_unit(&mut out, 0xDC00 + (c - 0x1_0000) % 1024);
        }
        assert(out@ =~= before + char_utf16(v@[i as int]));
        i += 1;
    }
    assert(v@.take(i as int) =~= s@);
    out
}

// ----- Base64 ---------------------------------------------------------------

/// The byte at `i`, zero past the end.
pub open spec fn byte_or_zero(bytes: Seq<u8>, i: int) -> int {
    if i < bytes.len() {
        bytes[i] as int
    } else {
        0
    }
}

/// The `i`th group of six bits, padded with zero bits.
pub open spec fn sextet(bytes: Seq<u8>, i: int) -> int {
    let at = i / 4 * 3;
    if i % 4 == 0 {
        byte_or_zero(bytes, at) / 4
    } else if i % 4 == 1 {
        byte_or_zero(bytes, at) % 4 * 16 + byte_or_zero(bytes, at + 1) / 16
    } else if i % 4 == 2 {
        byte_or_zero(bytes, at + 1) % 16 * 4 + byte_or_zero(bytes, at + 2) / 64
    } else {
        byte_or_zero(bytes, at + 2) % 64
    }
}

/// The standard alphabet.
pub open spec fn base64_digit(v: int) -> char {
    if v < 26 {
        ('A' as int + v) as char
    } else if v < 52 {
        ('a' as int + (v - 26)) as char
    } else if v < 62 {
        ('0' as int + (v - 52)) as char
    } else if v == 62 {
        '+'
    } else {
        '/'
    }
}

/// Base64 with the standard alphabet and padding: four characters for every
/// three bytes begun, of which those that carry no bits are `=`.
pub open spec fn base64_text(bytes: Seq<u8>) -> Seq<char> {
    Seq::new(
        ((bytes.len() + 2) / 3 * 4) as nat,
        |i: int|
            if 6 * i < 8 * bytes.len() {
                base64_digit(sextet(bytes, i))
            } else {
                '='
            },
    )
}

/// `base64::Engine::encode` of `base64::engine::general_purpose::STANDARD`: the
/// bytes in the standard alphabet, padded. The call panics where the size of
/// the result does not fit `usize`.
#[verifier::external_body]
pub(crate) fn base64_encode(bytes: &Vec<u8>) -> (r: String)
    requires
        bytes@.len() <= usize::MAX / 2,
    ensures
        r@ == base64_text(bytes@),
{
    base64::engine::general_purpose::STANDARD.encode(bytes)
}

} // verus!
