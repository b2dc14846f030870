use vstd::prelude::*;
use vstd::utf8::*;
use vstd::std_specs::iter::IteratorSpec;

verus! {

/// Number of bytes in the UTF-8 encoding of one `char`.
pub open spec fn char_utf8_width(c: char) -> nat {
    let v = c as u32;
    if v <= 0x7F {
        1
    } else if v <= 0x7FF {
        2
    } else if v <= 0xFFFF {
        3
    } else {
        4
    }
}

/// Number of bytes in the UTF-8 encoding of a character sequence; this is
/// what `str::len` reports.
pub open spec fn utf8_len(s: Seq<char>) -> nat {
    encode_utf8(s).len()
}

/// A `char` takes `char_utf8_width` bytes in UTF-8.
pub proof fn lemma_encode_scalar_len(c: char)
    ensures
        encode_scalar(c as u32).len() == char_utf8_width(c),
{
    char_is_scalar(c);
}

/// UTF-8 encodes a concatenation piece by piece.
pub proof fn lemma_encode_utf8_concat(a: Seq<char>, b: Seq<char>)
    ensures
        encode_utf8(a + b) == encode_utf8(a) + encode_utf8(b),
    decreases a.len(),
{
    if a.len() == 0 {
        assert(a + b =~= b);
        assert(encode_utf8(a) =~= Seq::<u8>::empty());
        assert(encode_utf8(a) + encode_utf8(b) =~= encode_utf8(b));
    } else {
        assert((a + b).drop_first() =~= a.drop_first() + b);
        lemma_encode_utf8_concat(a.drop_first(), b);
        assert((a + b)[0] == a[0]);
        assert(encode_utf8(a + b) =~= encode_scalar(a[0] as u32) + (encode_utf8(a.drop_first())
            + encode_utf8(b)));
    }
}

/// Appending a character adds its width to the UTF-8 length.
pub proof fn lemma_utf8_len_push(s: Seq<char>, c: char)
    ensures
        utf8_len(s.push(c)) == utf8_len(s) + char_utf8_width(c),
{
    lemma_encode_utf8_concat(s, seq![c]);
    assert(s.push(c) =~= s + seq![c]);
    assert(seq![c].drop_first() =~= Seq::<char>::empty());
    lemma_encode_scalar_len(c);
    assert(encode_utf8(seq![c]) =~= encode_scalar(c as u32) + encode_utf8(Seq::<char>::empty()));
}

/// The UTF-8 width of a `char` (what `char::len_utf8` returns).
pub fn char_width(c: char) -> (w: usize)
    ensures
        w == char_utf8_width(c),
        1 <= w <= 4,
{
    let v = c as u32;
    if v <= 0x7F {
        1
    } else if v <= 0x7FF {
        2
    } else if v <= 0xFFFF {
        3
    } else {
        4
    }
}

/// `utf8_len` only grows along prefixes.
pub proof fn lemma_utf8_len_take_monotone(s: Seq<char>, i: int, j: int)
    requires
        0 <= i <= j <= s.len(),
    ensures
        utf8_len(s.take(i)) <= utf8_len(s.take(j)),
{
    assert(s.take(j) =~= s.take(i) + s.subrange(i, j));
    lemma_encode_utf8_concat(s.take(i), s.subrange(i, j));
}

/// The first `k` characters of `s` are the longest prefix whose UTF-8
/// encoding fits in `budget` bytes.
pub open spec fn is_longest_fitting_prefix(s: Seq<char>, k: int, budget: int) -> bool {
    &&& 0 <= k <= s.len()
    &&& utf8_len(s.take(k)) <= budget
    &&& k < s.len() ==> utf8_len(s.take(k + 1)) > budget
}

/// At most one prefix length is the longest fitting one.
pub proof fn lemma_longest_fitting_prefix_unique(s: Seq<char>, k1: int, k2: int, budget: int)
    requires
        is_longest_fitting_prefix(s, k1, budget),
        is_longest_fitting_prefix(s, k2, budget),
    ensures
        k1 == k2,
{
    if k1 < k2 {
        lemma_utf8_len_take_monotone(s, k1 + 1, k2);
    } else if k2 < k1 {
        lemma_utf8_len_take_monotone(s, k2 + 1, k1);
    }
}

/// The number of characters of the longest prefix of `s` whose UTF-8
/// encoding fits in `budget` bytes.
pub open spec fn longest_fitting_prefix_len(s: Seq<char>, budget: int) -> int {
    choose|k: int| is_longest_fitting_prefix(s, k, budget)
}

/// Some prefix length is the longest fitting one.
pub proof fn lemma_longest_fitting_prefix_exists(s: Seq<char>, budget: int)
    requires
        budget >= 0,
    ensures
        is_longest_fitting_prefix(s, longest_fitting_prefix_len(s, budget), budget),
    decreases s.len(),
{
    if utf8_len(s) <= budget {
        assert(s.take(s.len() as int) =~= s);
        assert(is_longest_fitting_prefix(s, s.len() as int, budget));
    } else if s.len() == 0 {
        assert(s =~= Seq::<char>::empty());
    } else {
        let t = s.drop_last();
        lemma_longest_fitting_prefix_exists(t, budget);
        let k = longest_fitting_prefix_len(t, budget);
        assert(t.take(k) =~= s.take(k));
        if k < t.len() {
            assert(t.take(k + 1) =~= s.take(k + 1));
            assert(is_longest_fitting_prefix(s, k, budget));
        } else {
            assert(s.take(k + 1) =~= s);
            assert(is_longest_fitting_prefix(s, k, budget));
        }
    }
}

/// Walks `value` and stops at the first character that no longer fits in
/// `budget` bytes: returns the prefix length in characters, its length in
/// bytes, and whether the whole of `value` fit.
fn scan_fitting_prefix(value: &str, budget: usize) -> (r: (usize, usize, bool))
    ensures
        is_longest_fitting_prefix(value@, r.0 as int, budget as int),
        r.1 == utf8_len(value@.take(r.0 as int)),
        r.2 <==> r.0 == value@.len(),
{
    broadcast use vstd::string::group_string_axioms;

    let mut k: usize = 0;
    let mut bytes: usize = 0;
    let mut whole = false;
    let mut chars = value.chars();
    assert(value@.take(0) =~= Seq::<char>::empty());
    assert(value@.skip(0) =~= value@);
    loop
        invariant_except_break
            chars.obeys_prophetic_iter_laws(),
            chars.remaining() == value@.skip(k as int),
            !whole,
        invariant
            0 <= k <= value@.len(),
            k <= bytes,
            bytes == utf8_len(value@.take(k as int)),
            bytes <= budget,
        ensures
            is_longest_fitting_prefix(value@, k as int, budget as int),
            whole <==> k == value@.len(),
        decreases value@.len() - k,
    {
        match chars.next() {
            Some(c) => {
                assert(c == value@[k as int]);
                assert(value@.take(k + 1) =~= value@.take(k as int).push(c));
                proof {
                    lemma_utf8_len_push(value@.take(k as int), c);
                }
                let w = char_width(c);
                if w > budget - bytes {
                    break;
                }
                bytes = bytes + w;
                assert(value@.skip(k + 1) =~= value@.skip(k as int).drop_first());
                k = k + 1;
            },
            None => {
                assert(k == value@.len());
                whole = true;
                break;
            },
        }
    }
    (k, bytes, whole)
}

/// Counts the characters of the longest prefix of `value` whose UTF-8
/// encoding fits in `budget` bytes.
pub fn longest_fitting_prefix(value: &str, budget: usize) -> (k: usize)
    ensures
        is_longest_fitting_prefix(value@, k as int, budget as int),
        k == longest_fitting_prefix_len(value@, budget as int),
{
    let (k, _, _) = scan_fitting_prefix(value, budget);
    proof {
        lemma_longest_fitting_prefix_unique(
            value@,
            k as int,
            longest_fitting_prefix_len(value@, budget as int),
            budget as int,
        );
    }
    k
}

/// The UTF-8 length of `value` when it is at most `limit`, `None` when it
/// exceeds `limit`.
pub fn utf8_len_within(value: &str, limit: usize) -> (r: Option<usize>)
    ensures
        match r {
            Some(n) => n == utf8_len(value@) && n <= limit,
            None => utf8_len(value@) > limit,
        },
{
    let (k, bytes, whole) = scan_fitting_prefix(value, limit);
    if whole {
        assert(value@.take(k as int) =~= value@);
        assert(utf8_len(value@.take(k as int)) == utf8_len(value@));
        Some(bytes)
    } else {
        proof {
            lemma_utf8_len_take_monotone(value@, k + 1, value@.len() as int);
            assert(value@.take(value@.len() as int) =~= value@);
        }
        None
    }
}

/// Lexicographic order on character sequences: the order of `str`'s `Ord`
/// (UTF-8 preserves the order of scalar values).
pub open spec fn lex_le(a: Seq<char>, b: Seq<char>) -> bool
    decreases a.len(),
{
    if a.len() == 0 {
        true
    } else if b.len() == 0 {
        false
    } else if a[0] != b[0] {
        (a[0] as u32) < (b[0] as u32)
    } else {
        lex_le(a.drop_first(), b.drop_first())
    }
}

/// Every text is in order with itself.
pub proof fn lemma_lex_le_reflexive(a: Seq<char>)
    ensures
        lex_le(a, a),
    decreases a.len(),
{
    if a.len() > 0 {
        lemma_lex_le_reflexive(a.drop_first());
    }
}

/// Texts in order both ways are equal.
pub proof fn lemma_lex_le_antisymmetric(a: Seq<char>, b: Seq<char>)
    requires
        lex_le(a, b),
        lex_le(b, a),
    ensures
        a == b,
    decreases a.len(),
{
    if a.len() == 0 {
        assert(b.len() == 0);
        assert(a =~= b);
    } else {
        assert(b.len() > 0);
        if a[0] == b[0] {
            lemma_lex_le_antisymmetric(a.drop_first(), b.drop_first());
            assert(a =~= seq![a[0]] + a.drop_first());
            assert(b =~= seq![b[0]] + b.drop_first());
        }
    }
}

/// Lexicographic order is transitive.
pub proof fn lemma_lex_le_transitive(a: Seq<char>, b: Seq<char>, c: Seq<char>)
    requires
        lex_le(a, b),
        lex_le(b, c),
    ensures
        lex_le(a, c),
    decreases a.len(),
{
    if a.len() > 0 && b.len() > 0 && c.len() > 0 {
        if a[0] == b[0] && b[0] == c[0] {
            lemma_lex_le_transitive(a.drop_first(), b.drop_first(), c.drop_first());
        } else {
        }
    }
}

/// Any two texts are in order one way or the other.
pub proof fn lemma_lex_le_total(a: Seq<char>, b: Seq<char>)
    ensures
        lex_le(a, b) || lex_le(b, a),
    decreases a.len(),
{
    if a.len() > 0 && b.len() > 0 {
        if a[0] == b[0] {
            lemma_lex_le_total(a.drop_first(), b.drop_first());
        } else {
            char_u32_cast(a[0], a[0] as u32);
            char_u32_cast(b[0], b[0] as u32);
        }
    }
}

/// `lex_le` is a total order.
pub proof fn lemma_lex_le_total_ordering()
    ensures
        vstd::relations::total_ordering(|a: Seq<char>, b: Seq<char>| lex_le(a, b)),
{
    assert forall|a: Seq<char>| #[trigger] lex_le(a, a) by {
        lemma_lex_le_reflexive(a);
    }
    assert forall|a: Seq<char>, b: Seq<char>| #[trigger]
        lex_le(a, b) && #[trigger] lex_le(b, a) implies a == b by {
        lemma_lex_le_antisymmetric(a, b);
    }
    assert forall|a: Seq<char>, b: Seq<char>, c: Seq<char>| #[trigger]
        lex_le(a, b) && #[trigger] lex_le(b, c) implies lex_le(a, c) by {
        lemma_lex_le_transitive(a, b, c);
    }
    assert forall|a: Seq<char>, b: Seq<char>| #[trigger] lex_le(a, b) || #[trigger] lex_le(b, a) by {
        lemma_lex_le_total(a, b);
    }
}

/// The characters of `s`, in order.
pub fn chars_of(s: &str) -> (v: Vec<char>)
    ensures
        v@ == s@,
{
    broadcast use vstd::string::group_string_axioms;

    let mut v: Vec<char> = Vec::new();
    let mut chars = s.chars();
    assert(s@.skip(0) =~= s@);
    loop
        invariant_except_break
            chars.obeys_prophetic_iter_laws(),
            chars.remaining() == s@.skip(v@.len() as int),
        invariant
            v@ == s@.take(v@.len() as int),
            v@.len() <= s@.len(),
        ensures
            v@ == s@,
        decreases s@.len() - v@.len(),
    {
        match chars.next() {
            Some(c) => {
                assert(c == s@[v@.len() as int]);
                let ghost n: int = v@.len() as int;
                v.push(c);
                assert(s@.take(n + 1) =~= s@.take(n).push(c));
                assert(s@.skip(n + 1) =~= s@.skip(n).drop_first());
            },
            None => {
                assert(s@.take(v@.len() as int) =~= s@);
                break;
            },
        }
    }
    v
}

/// Whether `prefix` is a prefix of `s`.
pub fn str_starts_with(s: &str, prefix: &str) -> (r: bool)
    ensures
        r == prefix@.is_prefix_of(s@),
{
    let sv = chars_of(s);
    let pv = chars_of(prefix);
    if pv.len() > sv.len() {
        return false;
    }
    let mut i: usize = 0;
    while i < pv.len()
        invariant
            i <= pv.len() <= sv.len(),
            sv@ == s@,
            pv@ == prefix@,
            forall|j: int| 0 <= j < i ==> pv@[j] == sv@[j],
        decreases pv.len() - i,
    {
        if pv[i] != sv[i] {
            return false;
        }
        i = i + 1;
    }
    true
}

/// Whether `a` and `b` hold the same characters.
pub fn str_eq(a: &str, b: &str) -> (r: bool)
    ensures
        r == (a@ == b@),
{
    let av = chars_of(a);
    let bv = chars_of(b);
    if av.len() != bv.len() {
        return false;
    }
    let mut i: usize = 0;
    while i < av.len()
        invariant
            i <= av.len() == bv.len(),
            av@ == a@,
            bv@ == b@,
            forall|j: int| 0 <= j < i ==> av@[j] == bv@[j],
        decreases av.len() - i,
    {
        if av[i] != bv[i] {
            return false;
        }
        i = i + 1;
    }
    assert(a@ =~= b@);
    true
}

/// Whether `a` comes before or equals `b` in lexicographic order.
pub fn str_le(a: &str, b: &str) -> (r: bool)
    ensures
        r == lex_le(a@, b@),
{
    let av = chars_of(a);
    let bv = chars_of(b);
    let mut i: usize = 0;
    assert(a@.skip(0) =~= a@);
    assert(b@.skip(0) =~= b@);
    while i < av.len() && i < bv.len()
        invariant
            i <= av.len(),
            i <= bv.len(),
            av@ == a@,
            bv@ == b@,
            av@.take(i as int) == bv@.take(i as int),
            lex_le(a@, b@) == lex_le(a@.skip(i as int), b@.skip(i as int)),
        decreases av.len() - i,
    {
        let x = av[i];
        let y = bv[i];
        proof {
            let sa = a@.skip(i as int);
            let sb = b@.skip(i as int);
            assert(sa[0] == x && sb[0] == y);
            assert(sa.drop_first() =~= a@.skip(i + 1));
            assert(sb.drop_first() =~= b@.skip(i + 1));
        }
        if x != y {
            return (x as u32) < (y as u32);
        }
        assert(av@.take(i + 1) =~= av@.take(i as int).push(x));
        assert(bv@.take(i + 1) =~= bv@.take(i as int).push(y));
        i = i + 1;
    }
    i == av.len()
}

/// The views of a sequence of strings.
pub open spec fn string_views(v: Seq<String>) -> Seq<Seq<char>> {
    v.map_values(|s: String| s@)
}

/// The sequence is in ascending lexicographic order.
pub open spec fn sorted_lex(s: Seq<Seq<char>>) -> bool {
    forall|i: int, j: int| 0 <= i < j < s.len() ==> lex_le(#[trigger] s[i], #[trigger] s[j])
}

/// Sequences with the same multiset have the same set, and one has no
/// duplicates when the other has none.
pub proof fn lemma_same_multiset<A>(a: Seq<A>, b: Seq<A>)
    requires
        a.to_multiset() == b.to_multiset(),
    ensures
        a.to_set() == b.to_set(),
        a.no_duplicates() ==> b.no_duplicates(),
{
    a.to_multiset_ensures();
    b.to_multiset_ensures();
    assert forall|x: A| a.to_set().contains(x) <==> b.to_set().contains(x) by {
        assert(a.contains(x) <==> a.to_multiset().count(x) > 0);
        assert(b.contains(x) <==> b.to_multiset().count(x) > 0);
    }
    assert(a.to_set() =~= b.to_set());
    if a.no_duplicates() {
        a.lemma_multiset_has_no_duplicates();
        b.lemma_multiset_has_no_duplicates_conv();
    }
}

proof fn lemma_insert_to_multiset<A>(s: Seq<A>, p: int, x: A)
    requires
        0 <= p <= s.len(),
    ensures
        s.insert(p, x).to_multiset() == s.to_multiset().insert(x),
{
    broadcast use vstd::seq_lib::group_to_multiset_ensures;

    assert(s.insert(p, x) =~= s.take(p).push(x) + s.skip(p));
    assert(s =~= s.take(p) + s.skip(p));
    vstd::seq_lib::lemma_multiset_commutative(s.take(p).push(x), s.skip(p));
    vstd::seq_lib::lemma_multiset_commutative(s.take(p), s.skip(p));
    assert(s.take(p).push(x).to_multiset() =~= s.take(p).to_multiset().insert(x));
}

/// Sorts strings in ascending lexicographic order (the order of `String`'s
/// `Ord`); the result holds the same strings.
pub fn sort_strings(v: Vec<String>) -> (r: Vec<String>)
    ensures
        string_views(r@).to_multiset() == string_views(v@).to_multiset(),
        sorted_lex(string_views(r@)),
{
    broadcast use vstd::seq_lib::group_to_multiset_ensures;

    let ghost orig = string_views(v@);
    let mut src = v;
    let mut out: Vec<String> = Vec::new();
    assert(string_views(out@) =~= Seq::<Seq<char>>::empty());
    while src.len() > 0
        invariant
            string_views(out@).to_multiset().add(string_views(src@).to_multiset())
                == orig.to_multiset(),
            sorted_lex(string_views(out@)),
        decreases src.len(),
    {
        let ghost src_before = string_views(src@);
        let s = src.pop().unwrap();
        assert(src_before =~= string_views(src@).push(s@));
        let mut p: usize = 0;
        while p < out.len() && str_le(out[p].as_str(), s.as_str())
            invariant
                p <= out.len(),
                forall|q: int| 0 <= q < p ==> lex_le(#[trigger] string_views(out@)[q], s@),
            decreases out.len() - p,
        {
            p = p + 1;
        }
        let ghost before = string_views(out@);
        proof {
            if p < out.len() {
                lemma_lex_le_total(before[p as int], s@);
                assert forall|q: int| p <= q < before.len() implies lex_le(s@, #[trigger] before[q]) by {
                    if q > p {
                        lemma_lex_le_transitive(s@, before[p as int], before[q]);
                    }
                }
            }
        }
        out.insert(p, s);
        proof {
            assert(string_views(out@) =~= before.insert(p as int, s@));
            lemma_insert_to_multiset(before, p as int, s@);
            let after = string_views(out@);
            assert forall|i: int, j: int| 0 <= i < j < after.len() implies lex_le(
                #[trigger] after[i],
                #[trigger] after[j],
            ) by {
                if j < p {
                } else if i < p && j == p {
                } else if i < p && j > p {
                    assert(after[j] == before[j - 1]);
                } else if i == p {
                    assert(after[j] == before[j - 1]);
                } else {
                    assert(after[i] == before[i - 1]);
                    assert(after[j] == before[j - 1]);
                }
            }
            broadcast use vstd::multiset::group_multiset_axioms;
            string_views(src@).to_multiset_ensures();
            assert(string_views(src@).push(s@).to_multiset() =~= string_views(
                src@,
            ).to_multiset().insert(s@));
            assert(src_before.to_multiset() =~= string_views(src@).to_multiset().insert(s@));
            assert(orig.to_multiset() =~= string_views(out@).to_multiset().add(
                string_views(src@).to_multiset(),
            ));
        }
    }
    assert(string_views(src@) =~= Seq::<Seq<char>>::empty());
    out
}

/// Decodes `bytes` with `String::from_utf8`: the text when the bytes are
/// valid UTF-8 (as vstd's `valid_utf8` defines it), `None` otherwise.
#[verifier::external_body]
pub(crate) fn string_from_utf8(bytes: Vec<u8>) -> (r: Option<String>)
    ensures
        match r {
            Some(s) => valid_utf8(bytes@) && s@ == decode_utf8(bytes@),
            None => !valid_utf8(bytes@),
        },
{
    String::from_utf8(bytes).ok()
}

/// Appends one character with `String::push`.
#[verifier::external_body]
pub(crate) fn push_char(s: &mut String, c: char)
    ensures
        final(s)@ == old(s)@.push(c),
{
    s.push(c);
}

/// The pieces of `s` between occurrences of `sep` (as `str::split`
/// returns them; an empty `s` is one empty piece).
pub open spec fn split_on(s: Seq<char>, sep: char) -> Seq<Seq<char>>
    decreases s.len(),
{
    if s.len() == 0 {
        seq![Seq::<char>::empty()]
    } else {
        let rest = split_on(s.drop_last(), sep);
        if s.last() == sep {
            rest.push(Seq::<char>::empty())
        } else {
            rest.update(rest.len() - 1, rest.last().push(s.last()))
        }
    }
}

proof fn lemma_split_on_nonempty(s: Seq<char>, sep: char)
    ensures
        split_on(s, sep).len() >= 1,
    decreases s.len(),
{
    if s.len() > 0 {
        lemma_split_on_nonempty(s.drop_last(), sep);
    }
}

/// Splitting at a separator splits the two sides independently.
pub proof fn lemma_split_on_concat(x: Seq<char>, y: Seq<char>, sep: char)
    ensures
        split_on(x + seq![sep] + y, sep) == split_on(x, sep) + split_on(y, sep),
    decreases y.len(),
{
    lemma_split_on_nonempty(x, sep);
    lemma_split_on_nonempty(y, sep);
    if y.len() == 0 {
        assert((x + seq![sep] + y).drop_last() =~= x);
        assert(split_on(y, sep) =~= seq![Seq::<char>::empty()]);
        assert(split_on(x, sep).push(Seq::<char>::empty()) =~= split_on(x, sep) + split_on(y, sep));
    } else {
        let z = x + seq![sep] + y;
        let y0 = y.drop_last();
        assert(z.drop_last() =~= x + seq![sep] + y0);
        assert(z.last() == y.last());
        lemma_split_on_concat(x, y0, sep);
        lemma_split_on_nonempty(y0, sep);
        let a = split_on(x, sep);
        let b0 = split_on(y0, sep);
        if y.last() == sep {
            assert((a + b0).push(Seq::<char>::empty()) =~= a + b0.push(Seq::<char>::empty()));
        } else {
            assert((a + b0).update((a + b0).len() - 1, (a + b0).last().push(y.last())) =~= a
                + b0.update(b0.len() - 1, b0.last().push(y.last())));
        }
    }
}

/// A text without the separator is a single piece.
pub proof fn lemma_split_on_no_sep(x: Seq<char>, sep: char)
    requires
        !x.contains(sep),
    ensures
        split_on(x, sep) == seq![x],
    decreases x.len(),
{
    if x.len() == 0 {
        assert(x =~= Seq::<char>::empty());
        assert(split_on(x, sep) =~= seq![x]);
    } else {
        let x0 = x.drop_last();
        assert(!x0.contains(sep)) by {
            if x0.contains(sep) {
                let i = choose|i: int| 0 <= i < x0.len() && x0[i] == sep;
                assert(x[i] == sep);
            }
        }
        lemma_split_on_no_sep(x0, sep);
        assert(x.last() != sep) by {
            assert(x[x.len() - 1] == x.last());
        }
        assert(x0.push(x.last()) =~= x);
    }
}

/// Splits `s` at every `sep`.
pub fn split_str(s: &str, sep: char) -> (r: Vec<String>)
    ensures
        string_views(r@) == split_on(s@, sep),
{
    let cs = chars_of(s);
    let mut done: Vec<String> = Vec::new();
    let mut start: usize = 0;
    let mut i: usize = 0;
    assert(s@.take(0) =~= Seq::<char>::empty());
    assert(s@.subrange(0, 0) =~= Seq::<char>::empty());
    while i < cs.len()
        invariant
            cs@ == s@,
            start <= i <= cs@.len(),
            split_on(s@.take(i as int), sep) == string_views(done@).push(
                s@.subrange(start as int, i as int),
            ),
        decreases cs.len() - i,
    {
        let c = cs[i];
        let ghost t = s@.take(i + 1);
        assert(t.drop_last() =~= s@.take(i as int));
        assert(t.last() == c);
        if c == sep {
            let piece = s.substring_char(start, i).to_string();
            let ghost before = string_views(done@);
            done.push(piece);
            assert(string_views(done@) =~= before.push(s@.subrange(start as int, i as int)));
            start = i + 1;
            assert(s@.subrange(start as int, i + 1) =~= Seq::<char>::empty());
        } else {
            assert(s@.subrange(start as int, i + 1) =~= s@.subrange(start as int, i as int).push(c));
        }
        i = i + 1;
    }
    let piece = s.substring_char(start, cs.len()).to_string();
    let ghost before = string_views(done@);
    done.push(piece);
    assert(string_views(done@) =~= before.push(s@.subrange(start as int, cs@.len() as int)));
    assert(s@.take(cs@.len() as int) =~= s@);
    done
}

} // verus!
