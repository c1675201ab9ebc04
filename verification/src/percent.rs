//! Percent-encoded text: what it decodes to, and how text is encoded in a query.

use vstd::prelude::*;
use vstd::utf8::{
    decode_utf8, encode_scalar, encode_utf8, encode_utf8_first_scalar, is_ascii_chars,
    is_ascii_chars_encode_utf8, valid_utf8,
};

verus! {

/// The value of a hexadecimal digit; nothing for other bytes.
pub open spec fn hex_value(b: u8) -> Option<int> {
    if 0x30 <= b <= 0x39 {
        Some(b - 0x30)
    } else if 0x61 <= b <= 0x66 {
        Some(b - 0x61 + 10)
    } else if 0x41 <= b <= 0x46 {
        Some(b - 0x41 + 10)
    } else {
        None
    }
}

/// The bytes start with a percent sign and two hexadecimal digits.
pub open spec fn starts_escape(b: Seq<u8>) -> bool {
    b.len() >= 3 && b[0] == 0x25 && hex_value(b[1]) is Some && hex_value(b[2]) is Some
}

/// The bytes with every percent sign that two hexadecimal digits follow replaced, with
/// them, by the byte that the digits stand for. All else stays.
pub open spec fn percent_bytes(b: Seq<u8>) -> Seq<u8>
    decreases b.len(),
{
    if b.len() == 0 {
        b
    } else if starts_escape(b) {
        seq![(hex_value(b[1])->0 * 16 + hex_value(b[2])->0) as u8] + percent_bytes(b.skip(3))
    } else {
        seq![b[0]] + percent_bytes(b.skip(1))
    }
}

/// What a percent-encoded text decodes to; nothing where the bytes are not UTF-8.
pub open spec fn percent_decoded(s: Seq<char>) -> Option<Seq<char>> {
    let b = percent_bytes(encode_utf8(s));
    if valid_utf8(b) {
        Some(decode_utf8(b))
    } else {
        None
    }
}

/// The capital hexadecimal digit for `n`.
pub open spec fn capital_digit(n: int) -> char {
    if n < 10 {
        ('0' as int + n) as char
    } else {
        ('A' as int + n - 10) as char
    }
}

/// The byte stands for itself in a query string.
pub open spec fn stays_in_query(b: u8) -> bool {
    0x61 <= b <= 0x7a || 0x41 <= b <= 0x5a || 0x30 <= b <= 0x39 || b == 0x2a || b == 0x2d || b
        == 0x2e || b == 0x5f
}

/// One byte inside a query string: letters, digits and `*-._` as they are, a space as
/// a plus sign, and the rest as a percent sign and two capital hexadecimal digits.
pub open spec fn query_byte(b: u8) -> Seq<char> {
    if stays_in_query(b) {
        seq![b as char]
    } else if b == 0x20 {
        seq!['+']
    } else {
        seq!['%', capital_digit(b as int / 16), capital_digit(b as int % 16)]
    }
}

/// Bytes inside a query string.
pub open spec fn query_bytes(b: Seq<u8>) -> Seq<char>
    decreases b.len(),
{
    if b.len() == 0 {
        Seq::empty()
    } else {
        query_bytes(b.drop_last()) + query_byte(b.last())
    }
}

/// The form of a text inside a query string.
pub open spec fn form_encoded(s: Seq<char>) -> Seq<char> {
    query_bytes(encode_utf8(s))
}

/// `c` is a hexadecimal digit.
pub open spec fn is_hex(c: char) -> bool {
    '0' <= c <= '9' || 'a' <= c <= 'f' || 'A' <= c <= 'F'
}

/// Two hexadecimal digits follow every percent sign.
pub open spec fn valid_escapes(p: Seq<char>) -> bool {
    forall|i: int|
        0 <= i < p.len() && #[trigger] p[i] == '%' ==> i + 2 < p.len() && is_hex(p[i + 1])
            && is_hex(p[i + 2])
}

/// Texts are encoded one after the other.
pub proof fn lemma_encode_concat(a: Seq<char>, b: Seq<char>)
    ensures
        encode_utf8(a + b) == encode_utf8(a) + encode_utf8(b),
    decreases a.len(),
{
    if a.len() == 0 {
        assert(a + b =~= b);
        assert(encode_utf8(a) + encode_utf8(b) =~= encode_utf8(b));
    } else {
        lemma_encode_concat(a.drop_first(), b);
        assert((a + b).drop_first() =~= a.drop_first() + b);
        let first = encode_scalar(a[0] as u32);
        assert(first + (encode_utf8(a.drop_first()) + encode_utf8(b)) =~= first + encode_utf8(
            a.drop_first(),
        ) + encode_utf8(b));
    }
}

/// An ASCII character is its own byte.
proof fn lemma_ascii_byte(c: char)
    requires
        (c as u32) < 0x80,
    ensures
        encode_scalar(c as u32) == seq![c as u8],
{
    let s = seq![c];
    assert(is_ascii_chars(s));
    is_ascii_chars_encode_utf8(s);
    assert(s.drop_first() =~= Seq::<char>::empty());
    assert(encode_utf8(s.drop_first()) =~= Seq::<u8>::empty());
    assert(encode_utf8(s) =~= encode_scalar(c as u32));
    assert(encode_utf8(s)[0] == s[0] as u8);
    assert(encode_scalar(c as u32) =~= seq![c as u8]);
}

/// No byte of a character other than the percent sign is one.
proof fn lemma_no_percent(c: char)
    requires
        c != '%',
    ensures
        forall|i: int|
            0 <= i < encode_scalar(c as u32).len() ==> #[trigger] encode_scalar(c as u32)[i] != 0x25,
{
    if (c as u32) < 0x80 {
        lemma_ascii_byte(c);
    } else {
        let s = seq![c];
        assert(s.drop_first() =~= Seq::<char>::empty());
        assert(encode_utf8(s.drop_first()) =~= Seq::<u8>::empty());
        assert(encode_utf8(s) =~= encode_scalar(c as u32));
        encode_utf8_first_scalar(s);
    }
}

proof fn lemma_plain_bytes(x: Seq<u8>, rest: Seq<u8>)
    requires
        forall|i: int| 0 <= i < x.len() ==> #[trigger] x[i] != 0x25,
    ensures
        percent_bytes(x + rest) == x + percent_bytes(rest),
    decreases x.len(),
{
    if x.len() == 0 {
        assert(x + rest =~= rest);
        assert(x + percent_bytes(rest) =~= percent_bytes(rest));
    } else {
        lemma_plain_bytes(x.skip(1), rest);
        assert((x + rest)[0] == x[0]);
        assert((x + rest).skip(1) =~= x.skip(1) + rest);
        assert(seq![x[0]] + (x.skip(1) + percent_bytes(rest)) =~= x + percent_bytes(rest));
    }
}

/// What stands behind a text without broken escapes does not change how that text
/// decodes.
pub proof fn lemma_percent_concat(a: Seq<char>, b: Seq<char>)
    requires
        valid_escapes(a),
    ensures
        percent_bytes(encode_utf8(a + b)) == percent_bytes(encode_utf8(a)) + percent_bytes(
            encode_utf8(b),
        ),
    decreases a.len(),
{
    lemma_encode_concat(a, b);
    if a.len() == 0 {
        assert(a + b =~= b);
        assert(percent_bytes(encode_utf8(a)) + percent_bytes(encode_utf8(b)) =~= percent_bytes(
            encode_utf8(b),
        ));
    } else if a[0] == '%' {
        assert(is_hex(a[1]) && is_hex(a[2]));
        let rest = a.skip(3);
        assert forall|i: int| 0 <= i < rest.len() && #[trigger] rest[i] == '%' implies i + 2
            < rest.len() && is_hex(rest[i + 1]) && is_hex(rest[i + 2]) by {
            assert(a[i + 3] == '%');
        }
        lemma_percent_concat(rest, b);
        lemma_encode_concat(rest, b);
        lemma_escape(a);
        lemma_escape(a + b);
        assert((a + b).skip(3) =~= rest + b);
        let x = seq![(hex_value(a[1] as u8)->0 * 16 + hex_value(a[2] as u8)->0) as u8];
        assert(x + (percent_bytes(encode_utf8(rest)) + percent_bytes(encode_utf8(b))) =~= x
            + percent_bytes(encode_utf8(rest)) + percent_bytes(encode_utf8(b)));
    } else {
        let rest = a.drop_first();
        assert forall|i: int| 0 <= i < rest.len() && #[trigger] rest[i] == '%' implies i + 2
            < rest.len() && is_hex(rest[i + 1]) && is_hex(rest[i + 2]) by {
            assert(a[i + 1] == '%');
        }
        lemma_percent_concat(rest, b);
        let x = encode_scalar(a[0] as u32);
        lemma_no_percent(a[0]);
        lemma_plain_bytes(x, encode_utf8(rest));
        lemma_plain_bytes(x, encode_utf8(rest + b));
        assert((a + b).drop_first() =~= rest + b);
        assert(x + (percent_bytes(encode_utf8(rest)) + percent_bytes(encode_utf8(b))) =~= x
            + percent_bytes(encode_utf8(rest)) + percent_bytes(encode_utf8(b)));
    }
}

/// An escape at the start of a text decodes to one byte.
proof fn lemma_escape(a: Seq<char>)
    requires
        a.len() >= 3,
        a[0] == '%',
        is_hex(a[1]),
        is_hex(a[2]),
    ensures
        percent_bytes(encode_utf8(a)) == seq![
            (hex_value(a[1] as u8)->0 * 16 + hex_value(a[2] as u8)->0) as u8,
        ] + percent_bytes(encode_utf8(a.skip(3))),
{
    let rest = a.skip(3);
    lemma_ascii_byte(a[0]);
    lemma_ascii_byte(a[1]);
    lemma_ascii_byte(a[2]);
    let a1 = a.drop_first();
    let a2 = a1.drop_first();
    assert(a1[0] == a[1] && a2[0] == a[2]);
    assert(a2.drop_first() =~= rest);
    let e = encode_utf8(a);
    assert(e == seq![a[0] as u8] + encode_utf8(a1));
    assert(encode_utf8(a1) == seq![a[1] as u8] + encode_utf8(a2));
    assert(encode_utf8(a2) == seq![a[2] as u8] + encode_utf8(rest));
    assert(e =~= seq![a[0] as u8, a[1] as u8, a[2] as u8] + encode_utf8(rest));
    assert(e.skip(3) =~= encode_utf8(rest));
    assert(starts_escape(e));
}

/// A separator that is escaped, in capitals or not, decodes to the separator.
pub proof fn lemma_escaped_slash(rest: Seq<char>)
    ensures
        percent_bytes(encode_utf8("%2f"@ + rest)) == percent_bytes(encode_utf8("/"@ + rest)),
        percent_bytes(encode_utf8("%2F"@ + rest)) == percent_bytes(encode_utf8("/"@ + rest)),
{
    reveal_strlit("%2f");
    reveal_strlit("%2F");
    reveal_strlit("/");
    let small = "%2f"@ + rest;
    let capital = "%2F"@ + rest;
    let plain = "/"@ + rest;
    assert(small.skip(3) =~= rest);
    assert(capital.skip(3) =~= rest);
    lemma_escape(small);
    lemma_escape(capital);
    assert(plain.drop_first() =~= rest);
    lemma_ascii_byte('/');
    lemma_plain_bytes(seq![0x2fu8], encode_utf8(rest));
    assert(encode_utf8(plain) =~= seq![0x2fu8] + encode_utf8(rest));
}

/// A text without percent signs decodes to itself.
pub proof fn lemma_plain_text(s: Seq<char>)
    requires
        !s.contains('%'),
    ensures
        valid_escapes(s),
        percent_bytes(encode_utf8(s)) == encode_utf8(s),
    decreases s.len(),
{
    assert forall|i: int| 0 <= i < s.len() implies #[trigger] s[i] != '%' by {
        assert(s.contains(s[i]));
    }
    if s.len() == 0 {
        assert(encode_utf8(s) =~= Seq::<u8>::empty());
    } else {
        let rest = s.drop_first();
        assert forall|i: int| 0 <= i < rest.len() implies rest[i] != '%' by {
            assert(rest[i] == s[i + 1]);
        }
        lemma_plain_text(rest);
        lemma_no_percent(s[0]);
        lemma_plain_bytes(encode_scalar(s[0] as u32), encode_utf8(rest));
    }
}

} // verus!
