//! Compact JSON framing built on `serde_json`'s encoding of string values.
use vstd::prelude::*;
use vstd::string::*;

use crate::text::string_views;

verus! {

broadcast use vstd::string::group_string_axioms;

#[verifier::external_type_specification]
#[verifier::external_body]
pub struct ExJsonError(serde_json::Error);

/// The lower-case hexadecimal digit of `n` (`n < 16`).
pub open spec fn lower_hex_digit(n: u32) -> char {
    if n < 10 {
        (0x30 + n) as char
    } else {
        (0x61 + n - 10) as char
    }
}

/// How JSON writes one character inside a string: `"` and `\` and the
/// control characters backspace, tab, line feed, form feed and carriage
/// return get their two-character escapes; other characters below 0x20
/// become `\u00XX` (lower-case hex); every other character stands as it is.
pub open spec fn json_escape_char(c: char) -> Seq<char> {
    let v = c as u32;
    if c == '"' {
        seq!['\\', '"']
    } else if c == '\\' {
        seq!['\\', '\\']
    } else if v == 0x08 {
        seq!['\\', 'b']
    } else if v == 0x09 {
        seq!['\\', 't']
    } else if v == 0x0A {
        seq!['\\', 'n']
    } else if v == 0x0C {
        seq!['\\', 'f']
    } else if v == 0x0D {
        seq!['\\', 'r']
    } else if v < 0x20 {
        seq!['\\', 'u', '0', '0', lower_hex_digit(v / 16), lower_hex_digit(v % 16)]
    } else {
        seq![c]
    }
}

/// The escaped characters of `s`, in order.
pub open spec fn json_escaped(s: Seq<char>) -> Seq<char>
    decreases s.len(),
{
    if s.len() == 0 {
        Seq::empty()
    } else {
        json_escaped(s.drop_last()) + json_escape_char(s.last())
    }
}

/// The JSON string literal of `s`: `s` escaped, between double quotes.
pub open spec fn json_string_literal(s: Seq<char>) -> Seq<char> {
    seq!['"'] + json_escaped(s) + seq!['"']
}

/// The value of a hexadecimal digit (either case).
pub open spec fn hex_value(c: char) -> int {
    let v = c as u32;
    if 0x30 <= v <= 0x39 {
        v - 0x30
    } else if 0x61 <= v <= 0x66 {
        v - 0x61 + 10
    } else {
        v - 0x41 + 10
    }
}

/// Whether `c` is a hexadecimal digit (either case).
pub open spec fn is_hex_digit(c: char) -> bool {
    let v = c as u32;
    (0x30 <= v <= 0x39) || (0x61 <= v <= 0x66) || (0x41 <= v <= 0x46)
}

/// Whether `e` may follow `\` as a two-character escape in a JSON string.
pub open spec fn is_short_escape(e: char) -> bool {
    e == '"' || e == '\\' || e == '/' || e == 'b' || e == 'f' || e == 'n' || e == 'r' || e
        == 't'
}

/// The character that the two-character escape `\` `e` stands for.
pub open spec fn short_escape_value(e: char) -> char {
    if e == 'b' {
        0x08u32 as char
    } else if e == 'f' {
        0x0Cu32 as char
    } else if e == 'n' {
        0x0Au32 as char
    } else if e == 'r' {
        0x0Du32 as char
    } else if e == 't' {
        0x09u32 as char
    } else {
        e
    }
}

/// Whether `t` is the content of a JSON string as the JSON grammar has it:
/// no `"`, no control character below 0x20, and each `\` starting a
/// two-character escape or `\u` with four hexadecimal digits.
pub open spec fn valid_json_string_content(t: Seq<char>) -> bool
    decreases t.len(),
{
    if t.len() == 0 {
        true
    } else if t[0] == '\\' {
        if t.len() >= 2 && is_short_escape(t[1]) {
            valid_json_string_content(t.skip(2))
        } else if t.len() >= 6 && t[1] == 'u' && is_hex_digit(t[2]) && is_hex_digit(t[3])
            && is_hex_digit(t[4]) && is_hex_digit(t[5]) {
            valid_json_string_content(t.skip(6))
        } else {
            false
        }
    } else {
        t[0] != '"' && (t[0] as u32) >= 0x20 && valid_json_string_content(t.skip(1))
    }
}

/// What a JSON reader makes of the content of a string: escapes stand for
/// the character they name (a `\u` escape for the code unit its four
/// digits give), every other character for itself.
pub open spec fn json_unescaped(t: Seq<char>) -> Seq<char>
    decreases t.len(),
{
    if t.len() == 0 {
        Seq::empty()
    } else if t[0] == '\\' && t.len() >= 6 && t[1] == 'u' {
        seq![
            (hex_value(t[2]) * 4096 + hex_value(t[3]) * 256 + hex_value(t[4]) * 16 + hex_value(
                t[5],
            )) as char,
        ] + json_unescaped(t.skip(6))
    } else if t[0] == '\\' && t.len() >= 2 {
        seq![short_escape_value(t[1])] + json_unescaped(t.skip(2))
    } else {
        seq![t[0]] + json_unescaped(t.skip(1))
    }
}

proof fn lemma_json_escaped_concat(a: Seq<char>, b: Seq<char>)
    ensures
        json_escaped(a + b) == json_escaped(a) + json_escaped(b),
    decreases b.len(),
{
    if b.len() == 0 {
        assert(a + b =~= a);
        assert(json_escaped(a) + json_escaped(b) =~= json_escaped(a));
    } else {
        assert((a + b).drop_last() =~= a + b.drop_last());
        assert((a + b).last() == b.last());
        lemma_json_escaped_concat(a, b.drop_last());
        assert(json_escaped(a + b) =~= json_escaped(a) + json_escaped(b));
    }
}

proof fn lemma_json_escaped_cons(s: Seq<char>)
    requires
        s.len() > 0,
    ensures
        json_escaped(s) == json_escape_char(s[0]) + json_escaped(s.skip(1)),
{
    let head = seq![s[0]];
    assert(s =~= head + s.skip(1));
    assert(head.drop_last() =~= Seq::<char>::empty());
    assert(json_escaped(Seq::<char>::empty()) =~= Seq::<char>::empty());
    assert(head.last() == s[0]);
    assert(json_escaped(head) =~= json_escape_char(s[0]));
    lemma_json_escaped_concat(head, s.skip(1));
}

proof fn lemma_control_char_round_trip(c: char)
    requires
        (c as u32) < 0x20,
    ensures
        ((c as u32) as char) == c,
        (((c as u32) as int) as char) == c,
{
}

proof fn lemma_lower_hex_digit(n: u32)
    requires
        n < 16,
    ensures
        is_hex_digit(lower_hex_digit(n)),
        hex_value(lower_hex_digit(n)) == n,
{
}

/// What JSON writes for a string, read back by a JSON reader, is the
/// string itself.
pub proof fn lemma_json_escaped_round_trip(s: Seq<char>)
    ensures
        json_unescaped(json_escaped(s)) == s,
    decreases s.len(),
{
    if s.len() == 0 {
        assert(json_escaped(s) =~= Seq::<char>::empty());
    } else {
        let c = s[0];
        let rest = s.skip(1);
        lemma_json_escaped_cons(s);
        lemma_json_escaped_round_trip(rest);
        let e = json_escape_char(c);
        let t = e + json_escaped(rest);
        let v = c as u32;
        if e.len() == 6 {
            lemma_lower_hex_digit(v / 16);
            lemma_lower_hex_digit(v % 16);
            lemma_control_char_round_trip(c);
            assert(t.skip(6) =~= json_escaped(rest));
            assert(hex_value(t[4]) * 16 + hex_value(t[5]) == v);
        } else if e.len() == 2 {
            if c != '"' && c != '\\' {
                lemma_control_char_round_trip(c);
            }
            assert(t.skip(2) =~= json_escaped(rest));
        } else {
            assert(t.skip(1) =~= json_escaped(rest));
        }
        assert(json_unescaped(t) =~= seq![c] + rest);
        assert(seq![c] + rest =~= s);
    }
}

/// What JSON writes for a string is valid content of a JSON string, so a
/// JSON string literal is well formed.
pub proof fn lemma_json_escaped_valid(s: Seq<char>)
    ensures
        valid_json_string_content(json_escaped(s)),
    decreases s.len(),
{
    if s.len() == 0 {
        assert(json_escaped(s) =~= Seq::<char>::empty());
    } else {
        let c = s[0];
        let rest = s.skip(1);
        lemma_json_escaped_cons(s);
        lemma_json_escaped_valid(rest);
        let e = json_escape_char(c);
        let t = e + json_escaped(rest);
        let v = c as u32;
        if e.len() == 6 {
            lemma_lower_hex_digit(v / 16);
            lemma_lower_hex_digit(v % 16);
            assert(t.skip(6) =~= json_escaped(rest));
        } else if e.len() == 2 {
            assert(t.skip(2) =~= json_escaped(rest));
        } else {
            assert(t.skip(1) =~= json_escaped(rest));
        }
    }
}

/// Encodes one string value with `serde_json::to_string`. For a string,
/// serde_json writes into a `Vec` through its escape table and never fails;
/// the result is the JSON string literal of the argument.
#[verifier::external_body]
pub(crate) fn serde_json_to_string(s: &str) -> (r: Result<String, serde_json::Error>)
    ensures
        r is Ok,
        r matches Ok(j) ==> j@ == json_string_literal(s@),
{
    serde_json::to_string(s)
}

/// The view of an optional string.
pub open spec fn opt_view(s: Option<String>) -> Option<Seq<char>> {
    match s {
        Some(v) => Some(v@),
        None => None,
    }
}

/// The JSON string literals of all `items`.
pub open spec fn encode_all(items: Seq<Seq<char>>) -> Seq<Seq<char>> {
    items.map_values(|s: Seq<char>| json_string_literal(s))
}

/// The JSON string literal of an optional string (`None` stays `None`).
pub open spec fn encode_opt(s: Option<Seq<char>>) -> Option<Seq<char>> {
    match s {
        Some(v) => Some(json_string_literal(v)),
        None => None,
    }
}

/// Already encoded items separated by commas.
pub open spec fn comma_joined(items: Seq<Seq<char>>) -> Seq<char>
    decreases items.len(),
{
    if items.len() == 0 {
        Seq::empty()
    } else if items.len() == 1 {
        items[0]
    } else {
        comma_joined(items.drop_last()) + ","@ + items.last()
    }
}

/// The compact JSON array of already encoded items.
pub open spec fn json_array_frame(items: Seq<Seq<char>>) -> Seq<char> {
    "["@ + comma_joined(items) + "]"@
}

/// Encodes one string as a JSON string literal.
pub fn encode_string(s: &str) -> (r: String)
    ensures
        r@ == json_string_literal(s@),
{
    match serde_json_to_string(s) {
        Ok(j) => j,
        Err(_) => String::new(),
    }
}

/// Encodes each of `items` as a JSON string literal.
pub fn encode_strings(items: &Vec<String>) -> (r: Vec<String>)
    ensures
        string_views(r@) == encode_all(string_views(items@)),
{
    let ghost views = string_views(items@);
    let mut out: Vec<String> = Vec::new();
    let mut i: usize = 0;
    while i < items.len()
        invariant
            i <= items@.len(),
            views == string_views(items@),
            string_views(out@) == encode_all(views.take(i as int)),
        decreases items.len() - i,
    {
        let j = encode_string(items[i].as_str());
        let ghost before = string_views(out@);
        out.push(j);
        assert(string_views(out@) =~= before.push(j@));
        assert(encode_all(views.take(i + 1)) =~= encode_all(views.take(i as int)).push(
            json_string_literal(items@[i as int]@),
        ));
        i = i + 1;
    }
    assert(views.take(items.len() as int) =~= views);
    out
}

/// Encodes an optional string as JSON.
pub fn encode_optional(s: &Option<String>) -> (r: Option<String>)
    ensures
        opt_view(r) == encode_opt(opt_view(*s)),
{
    match s {
        Some(v) => Some(encode_string(v.as_str())),
        None => None,
    }
}

/// Appends the compact JSON array of the already encoded `items` to `out`.
pub fn push_json_array(out: &mut String, items: &Vec<String>)
    ensures
        final(out)@ == old(out)@ + json_array_frame(string_views(items@)),
{
    let ghost views = string_views(items@);
    let ghost start = out@;
    out.append("[");
    let mut i: usize = 0;
    assert(views.take(0) =~= Seq::<Seq<char>>::empty());
    while i < items.len()
        invariant
            i <= items@.len(),
            views == string_views(items@),
            out@ == start + "["@ + comma_joined(views.take(i as int)),
        decreases items.len() - i,
    {
        assert(views.take(i + 1).drop_last() =~= views.take(i as int));
        assert(views.take(i + 1).last() == items@[i as int]@);
        if i > 0 {
            out.append(",");
        } else {
            assert(views.take(1) =~= seq![views[0]]);
        }
        out.append(items[i].as_str());
        i = i + 1;
    }
    assert(views.take(items.len() as int) =~= views);
    out.append("]");
}

} // verus!
