//! Percent-encoding of URL path components and the URLs built from a profile.
use vstd::prelude::*;

use crate::text::string_from_chars;

verus! {

/// Bytes that stand for themselves in a path component (RFC 3986 "unreserved").
pub open spec fn is_unreserved(b: u8) -> bool {
    ||| 0x41 <= b <= 0x5a
    ||| 0x61 <= b <= 0x7a
    ||| 0x30 <= b <= 0x39
    ||| b == 0x2d
    ||| b == 0x5f
    ||| b == 0x2e
    ||| b == 0x7e
}

/// The upper-case hexadecimal digit for `d` (`d < 16`).
pub open spec fn hex_digit(d: u8) -> char {
    if d < 10 {
        (0x30 + d) as char
    } else {
        (0x41 + d - 10) as char
    }
}

/// The characters that `url_component` writes for one byte.
pub open spec fn encode_byte(b: u8) -> Seq<char> {
    if is_unreserved(b) {
        seq![b as char]
    } else {
        seq!['%', hex_digit(b / 16), hex_digit(b % 16)]
    }
}

/// Percent-encoding of a byte string, byte by byte.
pub open spec fn percent_encode(bytes: Seq<u8>) -> Seq<char>
    decreases bytes.len(),
{
    if bytes.len() == 0 {
        Seq::empty()
    } else {
        encode_byte(bytes[0]) + percent_encode(bytes.drop_first())
    }
}

/// The value of a hexadecimal digit (either case); 0 for anything else.
pub open spec fn hex_value(c: char) -> int {
    let u = c as u32;
    if 0x30 <= u <= 0x39 {
        u - 0x30
    } else if 0x41 <= u <= 0x46 {
        u - 0x41 + 10
    } else if 0x61 <= u <= 0x66 {
        u - 0x61 + 10
    } else {
        0
    }
}

/// Percent-decoding: `%XY` stands for the byte `0xXY`, any other character
/// for its own (low) byte.
pub open spec fn percent_decode(s: Seq<char>) -> Seq<u8>
    decreases s.len(),
{
    if s.len() == 0 {
        Seq::empty()
    } else if s[0] == '%' && s.len() >= 3 {
        seq![(hex_value(s[1]) * 16 + hex_value(s[2])) as u8] + percent_decode(s.skip(3))
    } else {
        seq![s[0] as u32 as u8] + percent_decode(s.skip(1))
    }
}

/// A character that may stand in an encoded component: an unreserved ASCII
/// character or `%`. None of `/`, `?`, `#`, `@` or `:` is one.
pub open spec fn is_component_char(c: char) -> bool {
    c == '%' || (c as u32) < 0x80 && is_unreserved(c as u32 as u8)
}

proof fn lemma_encode_byte(b: u8)
    ensures
        forall|k: int| 0 <= k < encode_byte(b).len() ==> is_component_char(#[trigger] encode_byte(b)[k]),
        percent_decode(encode_byte(b)) == seq![b],
{
    let e = encode_byte(b);
    if is_unreserved(b) {
        assert((b as char) as u32 == b as u32);
        assert(e[0] != '%');
        assert(e.skip(1) =~= Seq::<char>::empty());
        assert(percent_decode(Seq::<char>::empty()) =~= Seq::<u8>::empty());
        assert(e[0] as u32 as u8 == b);
        assert(percent_decode(e) =~= seq![b]);
    } else {
        let hi = b / 16;
        let lo = b % 16;
        assert(hex_digit(hi) as u32 == if hi < 10 { 0x30 + hi } else { 0x41 + hi - 10 });
        assert(hex_digit(lo) as u32 == if lo < 10 { 0x30 + lo } else { 0x41 + lo - 10 });
        assert(hex_value(hex_digit(hi)) == hi);
        assert(hex_value(hex_digit(lo)) == lo);
        assert(e.skip(3) =~= Seq::<char>::empty());
        assert(percent_decode(Seq::<char>::empty()) =~= Seq::<u8>::empty());
        assert((hi * 16 + lo) as u8 == b);
        assert(percent_decode(e) =~= seq![b]);
    }
}

/// Decoding distributes over an encoded byte followed by anything.
proof fn lemma_decode_prefix(b: u8, rest: Seq<char>)
    ensures
        percent_decode(encode_byte(b) + rest) == seq![b] + percent_decode(rest),
{
    lemma_encode_byte(b);
    let e = encode_byte(b);
    let s = e + rest;
    if is_unreserved(b) {
        assert((b as char) as u32 == b as u32);
        assert(s[0] != '%');
        assert(s.skip(1) =~= rest);
    } else {
        let hi = b / 16;
        let lo = b % 16;
        assert(hex_value(hex_digit(hi)) == hi);
        assert(hex_value(hex_digit(lo)) == lo);
        assert(s[0] == '%');
        assert(s[1] == hex_digit(hi));
        assert(s[2] == hex_digit(lo));
        assert(s.skip(3) =~= rest);
        assert((hi * 16 + lo) as u8 == b);
    }
}

/// Decoding an encoded component gives back exactly the bytes it was made from.
pub proof fn lemma_percent_roundtrip(bytes: Seq<u8>)
    ensures
        percent_decode(percent_encode(bytes)) == bytes,
    decreases bytes.len(),
{
    if bytes.len() == 0 {
        assert(percent_decode(Seq::<char>::empty()) =~= Seq::<u8>::empty());
    } else {
        lemma_percent_roundtrip(bytes.drop_first());
        lemma_decode_prefix(bytes[0], percent_encode(bytes.drop_first()));
        assert(seq![bytes[0]] + bytes.drop_first() =~= bytes);
    }
}

/// Every character of an encoded component is a component character.
pub proof fn lemma_percent_encode_chars(bytes: Seq<u8>)
    ensures
        forall|k: int|
            0 <= k < percent_encode(bytes).len() ==> is_component_char(
                #[trigger] percent_encode(bytes)[k],
            ),
    decreases bytes.len(),
{
    if bytes.len() > 0 {
        lemma_percent_encode_chars(bytes.drop_first());
        lemma_encode_byte(bytes[0]);
        let e = encode_byte(bytes[0]);
        let r = percent_encode(bytes.drop_first());
        assert forall|k: int| 0 <= k < (e + r).len() implies is_component_char(#[trigger] (e + r)[k]) by {
            if k < e.len() {
                assert((e + r)[k] == e[k]);
            } else {
                assert((e + r)[k] == r[k - e.len()]);
            }
        }
    }
}

proof fn lemma_percent_encode_push(bytes: Seq<u8>, b: u8)
    ensures
        percent_encode(bytes.push(b)) == percent_encode(bytes) + encode_byte(b),
    decreases bytes.len(),
{
    if bytes.len() == 0 {
        assert(bytes.push(b).drop_first() =~= Seq::<u8>::empty());
        assert(percent_encode(Seq::<u8>::empty()) =~= Seq::<char>::empty());
        assert(bytes.push(b)[0] == b);
        assert(percent_encode(bytes.push(b)) =~= encode_byte(b));
        assert(percent_encode(bytes) =~= Seq::<char>::empty());
        assert(percent_encode(bytes) + encode_byte(b) =~= encode_byte(b));
    } else {
        assert(bytes.push(b).drop_first() =~= bytes.drop_first().push(b));
        lemma_percent_encode_push(bytes.drop_first(), b);
        assert(percent_encode(bytes.push(b)) =~= percent_encode(bytes) + encode_byte(b));
    }
}

fn hex_digit_exec(d: u8) -> (c: char)
    requires
        d < 16,
    ensures
        c == hex_digit(d),
{
    if d < 10 {
        (0x30u8 + d) as char
    } else {
        (0x41u8 + d - 10) as char
    }
}

/// Percent-encodes the UTF-8 bytes of `value` for use as one URL path
/// segment: unreserved ASCII bytes stay, every other byte becomes `%XY`
/// with upper-case hexadecimal digits.
pub fn url_component(value: &str) -> (encoded: String)
    ensures
        encoded@ == percent_encode(vstd::utf8::encode_utf8(value@)),
        forall|k: int| 0 <= k < encoded@.len() ==> is_component_char(#[trigger] encoded@[k]),
        percent_decode(encoded@) == vstd::utf8::encode_utf8(value@),
{
    let bytes = value.as_bytes();
    let mut out: Vec<char> = Vec::new();
    let mut i: usize = 0;
    while i < bytes.len()
        invariant
            bytes@ == vstd::utf8::encode_utf8(value@),
            i <= bytes.len(),
            out@ == percent_encode(bytes@.take(i as int)),
        decreases bytes.len() - i,
    {
        let b = bytes[i];
        proof {
            assert(bytes@.take(i + 1) =~= bytes@.take(i as int).push(b));
            lemma_percent_encode_push(bytes@.take(i as int), b);
        }
        if (0x41 <= b && b <= 0x5a) || (0x61 <= b && b <= 0x7a) || (0x30 <= b && b <= 0x39) || b
            == 0x2d || b == 0x5f || b == 0x2e || b == 0x7e {
            out.push(b as char);
        } else {
            out.push('%');
            out.push(hex_digit_exec(b / 16));
            out.push(hex_digit_exec(b % 16));
        }
        assert(out@ =~= percent_encode(bytes@.take(i as int)) + encode_byte(b));
        i = i + 1;
    }
    proof {
        assert(bytes@.take(bytes@.len() as int) =~= bytes@);
        lemma_percent_encode_chars(bytes@);
        lemma_percent_roundtrip(bytes@);
    }
    string_from_chars(&out)
}

} // verus!
