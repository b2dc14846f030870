//! Percent-encoding of URL path segments.
use vstd::prelude::*;
use vstd::utf8::encode_utf8;
use vstd::utf8::is_ascii_chars;
use vstd::utf8::is_ascii_chars_encode_utf8;

use crate::text::lemma_encode_utf8_concat;

verus! {

/// The value of an ASCII hexadecimal digit.
pub open spec fn hex_value(b: u8) -> Option<u8> {
    if 0x30 <= b <= 0x39 {
        Some((b - 0x30) as u8)
    } else if 0x41 <= b <= 0x46 {
        Some((b - 0x41 + 10) as u8)
    } else if 0x61 <= b <= 0x66 {
        Some((b - 0x61 + 10) as u8)
    } else {
        None
    }
}

/// `%XX` (two hexadecimal digits) stands for the byte `0xXX`; every other
/// byte stands for itself.
pub open spec fn percent_decode(bs: Seq<u8>) -> Seq<u8>
    decreases bs.len(),
{
    if bs.len() == 0 {
        Seq::empty()
    } else if bs[0] == 0x25 && bs.len() >= 3 && hex_value(bs[1]) is Some && hex_value(
        bs[2],
    ) is Some {
        seq![(hex_value(bs[1])->0 * 16 + hex_value(bs[2])->0) as u8] + percent_decode(bs.skip(3))
    } else {
        seq![bs[0]] + percent_decode(bs.skip(1))
    }
}

/// The bytes that a URL path segment may hold as they are: ASCII letters,
/// digits, `-`, `.`, `_` and `~`.
pub open spec fn is_unreserved(b: u8) -> bool {
    ||| 0x30 <= b <= 0x39
    ||| 0x41 <= b <= 0x5A
    ||| 0x61 <= b <= 0x7A
    ||| b == 0x2D
    ||| b == 0x2E
    ||| b == 0x5F
    ||| b == 0x7E
}

/// The upper-case hexadecimal digit of `n`.
pub open spec fn hex_digit(n: u8) -> char {
    if n < 10 {
        (0x30 + n) as char
    } else {
        (0x41 + n - 10) as char
    }
}

/// One byte of a path segment: itself when unreserved, else `%XX`.
pub open spec fn percent_encode_byte(b: u8) -> Seq<char> {
    if is_unreserved(b) {
        seq![b as char]
    } else {
        seq!['%', hex_digit(b / 16), hex_digit(b % 16)]
    }
}

/// The percent-encoding of a byte sequence.
pub open spec fn percent_encode(bs: Seq<u8>) -> Seq<char>
    decreases bs.len(),
{
    if bs.len() == 0 {
        Seq::empty()
    } else {
        percent_encode_byte(bs[0]) + percent_encode(bs.skip(1))
    }
}

fn hex_value_exec(b: u8) -> (r: Option<u8>)
    ensures
        r == hex_value(b),
{
    if 0x30 <= b && b <= 0x39 {
        Some(b - 0x30)
    } else if 0x41 <= b && b <= 0x46 {
        Some(b - 0x41 + 10)
    } else if 0x61 <= b && b <= 0x66 {
        Some(b - 0x61 + 10)
    } else {
        None
    }
}

/// Decodes `%XX` escapes in `bs`.
pub fn percent_decode_bytes(bs: &[u8]) -> (r: Vec<u8>)
    ensures
        r@ == percent_decode(bs@),
{
    let mut out: Vec<u8> = Vec::new();
    let mut i: usize = 0;
    assert(bs@.skip(0) =~= bs@);
    while i < bs.len()
        invariant
            i <= bs@.len(),
            out@ + percent_decode(bs@.skip(i as int)) == percent_decode(bs@),
        decreases bs.len() - i,
    {
        let rest = Ghost(bs@.skip(i as int));
        let b = bs[i];
        if b == 0x25 && bs.len() - i > 2 {
            let h = hex_value_exec(bs[i + 1]);
            let l = hex_value_exec(bs[i + 2]);
            if h.is_some() && l.is_some() {
                let hv = h.unwrap();
                let lv = l.unwrap();
                let v = hv * 16 + lv;
                let ghost before = out@;
                out.push(v);
                assert(rest@.skip(3) =~= bs@.skip(i + 3));
                assert(out@ =~= before + seq![v]);
                i = i + 3;
                continue;
            }
        }
        let ghost before = out@;
        out.push(b);
        assert(rest@.skip(1) =~= bs@.skip(i + 1));
        assert(out@ =~= before + seq![b]);
        i = i + 1;
    }
    assert(bs@.skip(i as int) =~= Seq::<u8>::empty());
    assert(out@ + percent_decode(Seq::<u8>::empty()) =~= out@);
    out
}

fn hex_digit_exec(n: u8) -> (c: char)
    requires
        n < 16,
    ensures
        c == hex_digit(n),
{
    if n < 10 {
        (0x30 + n) as char
    } else {
        (0x41 + n - 10) as char
    }
}

/// Percent-encodes `bs`.
pub fn percent_encode_bytes(bs: &[u8]) -> (r: String)
    ensures
        r@ == percent_encode(bs@),
{
    let mut out = String::new();
    let mut i: usize = 0;
    assert(bs@.skip(0) =~= bs@);
    while i < bs.len()
        invariant
            i <= bs@.len(),
            out@ + percent_encode(bs@.skip(i as int)) == percent_encode(bs@),
        decreases bs.len() - i,
    {
        let b = bs[i];
        let ghost rest = bs@.skip(i as int);
        let ghost before = out@;
        let unreserved = (0x30 <= b && b <= 0x39) || (0x41 <= b && b <= 0x5A) || (0x61 <= b && b
            <= 0x7A) || b == 0x2D || b == 0x2E || b == 0x5F || b == 0x7E;
        if unreserved {
            crate::text::push_char(&mut out, b as char);
            assert(out@ =~= before + seq![b as char]);
        } else {
            crate::text::push_char(&mut out, '%');
            crate::text::push_char(&mut out, hex_digit_exec(b / 16));
            crate::text::push_char(&mut out, hex_digit_exec(b % 16));
            assert(out@ =~= before + seq!['%', hex_digit(b / 16), hex_digit(b % 16)]);
        }
        assert(rest.skip(1) =~= bs@.skip(i + 1));
        i = i + 1;
    }
    assert(bs@.skip(i as int) =~= Seq::<u8>::empty());
    assert(out@ + percent_encode(Seq::<u8>::empty()) =~= out@);
    out
}

proof fn lemma_hex_digit_value(n: u8)
    requires
        n < 16,
    ensures
        (hex_digit(n) as u32) < 0x80,
        hex_value(hex_digit(n) as u8) == Some(n),
{
}

proof fn lemma_encode_byte_bytes(b: u8)
    ensures
        is_ascii_chars(percent_encode_byte(b)),
        encode_utf8(percent_encode_byte(b)) == (if is_unreserved(b) {
            seq![b]
        } else {
            seq![0x25u8, hex_digit(b / 16) as u8, hex_digit(b % 16) as u8]
        }),
{
    let e = percent_encode_byte(b);
    if !is_unreserved(b) {
        lemma_hex_digit_value(b / 16);
        lemma_hex_digit_value(b % 16);
    }
    assert(is_ascii_chars(e));
    is_ascii_chars_encode_utf8(e);
    if is_unreserved(b) {
        assert(encode_utf8(e) =~= seq![b]);
    } else {
        assert(encode_utf8(e) =~= seq![0x25u8, hex_digit(b / 16) as u8, hex_digit(b % 16) as u8]);
    }
}

/// Decoding what percent-encoding produced gives the encoded bytes back.
pub proof fn lemma_percent_decode_encode(bs: Seq<u8>)
    ensures
        percent_decode(encode_utf8(percent_encode(bs))) == bs,
    decreases bs.len(),
{
    if bs.len() == 0 {
        assert(encode_utf8(Seq::<char>::empty()) =~= Seq::<u8>::empty());
    } else {
        let b = bs[0];
        let head = percent_encode_byte(b);
        let tail = percent_encode(bs.skip(1));
        lemma_encode_utf8_concat(head, tail);
        lemma_encode_byte_bytes(b);
        lemma_percent_decode_encode(bs.skip(1));
        let bytes = encode_utf8(head) + encode_utf8(tail);
        if is_unreserved(b) {
            assert(bytes.skip(1) =~= encode_utf8(tail));
            assert(bytes[0] == b);
        } else {
            assert(bytes.skip(3) =~= encode_utf8(tail));
            lemma_hex_digit_value(b / 16);
            lemma_hex_digit_value(b % 16);
            assert(bytes[1] == hex_digit(b / 16) as u8);
            assert(bytes[2] == hex_digit(b % 16) as u8);
            assert((b / 16) * 16 + b % 16 == b);
        }
        assert(bs =~= seq![b] + bs.skip(1));
    }
}

/// Percent-encoding never produces a `/`.
pub proof fn lemma_percent_encode_no_slash(bs: Seq<u8>)
    ensures
        !percent_encode(bs).contains('/'),
    decreases bs.len(),
{
    if bs.len() > 0 {
        let b = bs[0];
        lemma_percent_encode_no_slash(bs.skip(1));
        let head = percent_encode_byte(b);
        let tail = percent_encode(bs.skip(1));
        if !is_unreserved(b) {
            lemma_hex_digit_value(b / 16);
            lemma_hex_digit_value(b % 16);
        }
        assert forall|i: int| 0 <= i < head.len() implies head[i] != '/' by {
            if is_unreserved(b) {
                assert(head[i] == b as char);
            }
        }
        if (head + tail).contains('/') {
            let i = choose|i: int| 0 <= i < (head + tail).len() && (head + tail)[i] == '/';
            if i >= head.len() {
                assert(tail[i - head.len()] == '/');
            }
        }
    }
}

/// Whether `c` is an ASCII letter or digit, or one of `-`, `.`, `_`, `~`:
/// the characters that a URL path segment holds as they are.
pub open spec fn is_unreserved_char(c: char) -> bool {
    ||| (c >= 'a' && 'z' >= c)
    ||| (c >= 'A' && 'Z' >= c)
    ||| (c >= '0' && '9' >= c)
    ||| c == '-'
    ||| c == '.'
    ||| c == '_'
    ||| c == '~'
}

proof fn lemma_percent_encode_unreserved_bytes(s: Seq<char>, bs: Seq<u8>)
    requires
        bs.len() == s.len(),
        forall|i: int| 0 <= i < s.len() ==> is_unreserved_char(#[trigger] s[i]),
        forall|i: int| 0 <= i < s.len() ==> #[trigger] bs[i] == s[i] as u8,
    ensures
        percent_encode(bs) == s,
    decreases s.len(),
{
    if s.len() == 0 {
        assert(percent_encode(bs) =~= s);
    } else {
        let c = s[0];
        assert(is_unreserved_char(c));
        assert(bs[0] == c as u8);
        assert(is_unreserved(bs[0]));
        assert((bs[0] as char) == c);
        lemma_percent_encode_unreserved_bytes(s.skip(1), bs.skip(1));
        assert(percent_encode(bs) =~= seq![c] + s.skip(1));
        assert(seq![c] + s.skip(1) =~= s);
    }
}

/// Percent-encoding leaves a text made of unreserved characters (ASCII
/// letters, digits, `-`, `.`, `_`, `~`) unchanged.
pub proof fn lemma_percent_encode_keeps_unreserved(s: Seq<char>)
    requires
        forall|i: int| 0 <= i < s.len() ==> is_unreserved_char(#[trigger] s[i]),
    ensures
        percent_encode(encode_utf8(s)) == s,
{
    assert(is_ascii_chars(s)) by {
        assert forall|i: int| 0 <= i < s.len() implies '\0' <= #[trigger] s[i] <= '\u{7f}' by {
            assert(is_unreserved_char(s[i]));
        }
    }
    is_ascii_chars_encode_utf8(s);
    lemma_percent_encode_unreserved_bytes(s, encode_utf8(s));
}

/// Whether `c` is `0`-`9` or `A`-`F`.
pub open spec fn is_upper_hex_char(c: char) -> bool {
    (c >= '0' && '9' >= c) || (c >= 'A' && 'F' >= c)
}

/// The value of an upper-case hexadecimal digit.
pub open spec fn upper_hex_char_value(c: char) -> int {
    if c >= '0' && '9' >= c {
        (c as int) - ('0' as int)
    } else {
        (c as int) - ('A' as int) + 10
    }
}

/// A byte that is not an unreserved character becomes `%` followed by the
/// two upper-case hexadecimal digits of its value.
pub proof fn lemma_percent_encode_escapes_reserved(b: u8)
    requires
        !is_unreserved_char(b as char),
    ensures
        percent_encode(seq![b]).len() == 3,
        percent_encode(seq![b])[0] == '%',
        is_upper_hex_char(percent_encode(seq![b])[1]),
        is_upper_hex_char(percent_encode(seq![b])[2]),
        upper_hex_char_value(percent_encode(seq![b])[1]) * 16 + upper_hex_char_value(
            percent_encode(seq![b])[2],
        ) == b,
{
    let bs = seq![b];
    assert(bs[0] == b);
    assert(!is_unreserved(b));
    assert(bs.skip(1) =~= Seq::<u8>::empty());
    assert(percent_encode(Seq::<u8>::empty()) =~= Seq::<char>::empty());
    assert(percent_encode(bs) =~= seq!['%', hex_digit(b / 16), hex_digit(b % 16)]);
}

/// Percent-encoding works byte by byte: the encoding of two byte sequences
/// one after the other is their encodings one after the other.
pub proof fn lemma_percent_encode_concat(a: Seq<u8>, b: Seq<u8>)
    ensures
        percent_encode(a + b) == percent_encode(a) + percent_encode(b),
    decreases a.len(),
{
    if a.len() == 0 {
        assert(a + b =~= b);
        assert(percent_encode(a) + percent_encode(b) =~= percent_encode(b));
    } else {
        assert((a + b).skip(1) =~= a.skip(1) + b);
        assert((a + b)[0] == a[0]);
        lemma_percent_encode_concat(a.skip(1), b);
        assert(percent_encode(a + b) =~= percent_encode(a) + percent_encode(b));
    }
}

} // verus!
