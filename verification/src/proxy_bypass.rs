//! Matching request origins against a WinHTTP proxy bypass list.
use vstd::prelude::*;
use vstd::string::*;

use crate::text::chars_of;

verus! {

broadcast use vstd::string::group_string_axioms;

/// Where a request goes.
pub struct RequestOrigin {
    pub scheme: String,
    pub host: String,
    pub port: u16,
}

/// Entries of a bypass list are separated by `;` or white space.
pub open spec fn is_bypass_separator(c: char) -> bool {
    c == ';' || c == ' ' || c == '\t' || c == '\n' || c == '\r'
}

/// The non-empty entries of a bypass list, in order.
pub open spec fn bypass_entries(s: Seq<char>) -> Seq<Seq<char>>
    decreases s.len(),
{
    if s.len() == 0 {
        Seq::empty()
    } else {
        let t = bypass_entries(s.drop_last());
        let c = s.last();
        if is_bypass_separator(c) {
            t
        } else if s.len() >= 2 && !is_bypass_separator(s[s.len() - 2]) && t.len() > 0 {
            t.update(t.len() - 1, t.last().push(c))
        } else {
            t.push(seq![c])
        }
    }
}

/// ASCII lower case of a character.
pub open spec fn ascii_lower(c: char) -> char {
    if 'A' <= c <= 'Z' {
        (((c as u8) + 32) as u8) as char
    } else {
        c
    }
}

/// ASCII lower case of a text.
pub open spec fn lower(s: Seq<char>) -> Seq<char> {
    s.map_values(|c: char| ascii_lower(c))
}

/// One bypass entry against a host: `<local>` matches hosts without a dot;
/// an entry starting with `*` matches hosts that end with the rest of the
/// entry; any other entry matches that host only. Letters compare without
/// regard to ASCII case.
pub open spec fn entry_matches_host(entry: Seq<char>, host: Seq<char>) -> bool {
    if entry == "<local>"@ {
        !host.contains('.')
    } else if entry.len() > 0 && entry[0] == '*' {
        lower(entry.skip(1)).is_suffix_of(lower(host))
    } else {
        lower(entry) == lower(host)
    }
}

/// Some entry of the bypass list matches the host.
pub open spec fn spec_bypass_matches(bypass: Seq<char>, host: Seq<char>) -> bool {
    exists|i: int|
        0 <= i < bypass_entries(bypass).len() && entry_matches_host(
            #[trigger] bypass_entries(bypass)[i],
            host,
        )
}

fn ascii_lower_exec(c: char) -> (r: char)
    ensures
        r == ascii_lower(c),
{
    if 'A' <= c && c <= 'Z' {
        ((c as u8) + 32) as char
    } else {
        c
    }
}

fn lower_chars(s: &Vec<char>) -> (r: Vec<char>)
    ensures
        r@ == lower(s@),
{
    let mut r: Vec<char> = Vec::new();
    let mut i: usize = 0;
    while i < s.len()
        invariant
            i <= s@.len(),
            r@ == lower(s@.take(i as int)),
        decreases s.len() - i,
    {
        r.push(ascii_lower_exec(s[i]));
        assert(lower(s@.take(i + 1)) =~= lower(s@.take(i as int)).push(ascii_lower(s@[i as int])));
        i = i + 1;
    }
    assert(s@.take(s@.len() as int) =~= s@);
    r
}

/// Whether `entry` (the characters `b[from..to]`) matches `host`.
fn entry_matches(b: &Vec<char>, from: usize, to: usize, host: &Vec<char>) -> (r: bool)
    requires
        from < to <= b@.len(),
    ensures
        r == entry_matches_host(b@.subrange(from as int, to as int), host@),
{
    let ghost entry = b@.subrange(from as int, to as int);
    let local = chars_of("<local>");
    let mut is_local = to - from == local.len();
    let mut i: usize = 0;
    while is_local && i < local.len()
        invariant
            i <= local@.len(),
            local@ == "<local>"@,
            is_local ==> to - from == local@.len(),
            is_local ==> forall|j: int| 0 <= j < i ==> b@[from + j] == local@[j],
            !is_local ==> entry != "<local>"@,
            from < to <= b@.len(),
            entry == b@.subrange(from as int, to as int),
        decreases local.len() - i,
    {
        if b[from + i] != local[i] {
            is_local = false;
            assert(entry[i as int] != local@[i as int]);
            i = local.len();
        } else {
            i = i + 1;
        }
    }
    if is_local {
        assert(entry =~= local@);
        let mut k: usize = 0;
        while k < host.len()
            invariant
                k <= host@.len(),
                forall|j: int| 0 <= j < k ==> host@[j] != '.',
                from < to <= b@.len(),
                entry == b@.subrange(from as int, to as int),
                entry == "<local>"@,
            decreases host.len() - k,
        {
            if host[k] == '.' {
                assert(host@[k as int] == '.');
                assert(host@.contains('.'));
                return false;
            }
            k = k + 1;
        }
        return true;
    }
    assert(entry != "<local>"@);
    let mut piece: Vec<char> = Vec::new();
    let wildcard = b[from] == '*';
    assert(entry[0] == b@[from as int]);
    let mut j: usize = if wildcard {
        from + 1
    } else {
        from
    };
    let ghost start = j;
    while j < to
        invariant
            start <= j <= to <= b@.len(),
            piece@ == b@.subrange(start as int, j as int),
        decreases to - j,
    {
        piece.push(b[j]);
        assert(b@.subrange(start as int, j + 1) =~= b@.subrange(start as int, j as int).push(b@[j as int]));
        j = j + 1;
    }
    if wildcard {
        assert(piece@ =~= entry.skip(1));
    } else {
        assert(piece@ =~= entry);
    }
    let p = lower_chars(&piece);
    let h = lower_chars(host);
    if p.len() > h.len() {
        return false;
    }
    if !wildcard && p.len() != h.len() {
        assert(p@.len() != h@.len());
        return false;
    }
    let off = h.len() - p.len();
    let mut q: usize = 0;
    while q < p.len()
        invariant
            q <= p@.len(),
            off + p@.len() == h@.len(),
            h@.len() == h.len(),
            forall|t: int| 0 <= t < q ==> p@[t] == h@[off + t],
            !wildcard ==> off == 0,
            from < to <= b@.len(),
            entry == b@.subrange(from as int, to as int),
            entry != "<local>"@,
            wildcard <==> (entry.len() > 0 && entry[0] == '*'),
            wildcard ==> p@ == lower(entry.skip(1)),
            !wildcard ==> p@ == lower(entry),
            h@ == lower(host@),
        decreases p.len() - q,
    {
        if p[q] != h[off + q] {
            proof {
                if wildcard {
                    assert(!p@.is_suffix_of(h@)) by {
                        if p@.is_suffix_of(h@) {
                            assert(h@.subrange(off as int, h@.len() as int)[q as int] == h@[off + q]);
                        }
                    }
                } else {
                    assert(p@ != h@) by {
                        if p@ == h@ {
                            assert(p@[q as int] == h@[q as int]);
                        }
                    }
                }
            }
            return false;
        }
        q = q + 1;
    }
    if wildcard {
        assert(h@.subrange(off as int, h@.len() as int) =~= p@);
    } else {
        assert(p@ =~= h@);
    }
    true
}

/// Whether the bypass list lets requests to `origin` skip the proxy; see
/// [`spec_bypass_matches`].
pub fn proxy_bypass_matches_origin(bypass: &str, origin: &RequestOrigin) -> (r: bool)
    ensures
        r == spec_bypass_matches(bypass@, origin.host@),
{
    let b = chars_of(bypass);
    let host = chars_of(origin.host.as_str());
    let ghost s = bypass@;
    let mut start: usize = 0;
    let mut i: usize = 0;
    let mut found = false;
    let ghost mut done: Seq<Seq<char>> = Seq::empty();
    assert(s.take(0) =~= Seq::<char>::empty());
    while i < b.len()
        invariant
            b@ == s,
            host@ == origin.host@,
            start <= i <= b@.len(),
            bypass_entries(s.take(i as int)) == if start < i {
                done.push(s.subrange(start as int, i as int))
            } else {
                done
            },
            forall|j: int| start <= j < i ==> !is_bypass_separator(#[trigger] s[j]),
            start == i && i > 0 ==> is_bypass_separator(s[i - 1]),
            found == exists|k: int| 0 <= k < done.len() && entry_matches_host(#[trigger] done[k], host@),
        decreases b.len() - i,
    {
        let c = b[i];
        let ghost t = s.take(i + 1);
        assert(t.drop_last() =~= s.take(i as int));
        assert(t.last() == c);
        let sep = c == ';' || c == ' ' || c == '\t' || c == '\n' || c == '\r';
        if sep {
            if start < i {
                let m = entry_matches(&b, start, i, &host);
                let ghost before = done;
                proof {
                    done = done.push(s.subrange(start as int, i as int));
                    if found {
                        let k = choose|k: int| 0 <= k < before.len() && entry_matches_host(#[trigger] before[k], host@);
                        assert(done[k] == before[k]);
                    }
                    if m {
                        assert(entry_matches_host(done[before.len() as int], host@));
                    }
                    assert forall|k: int| 0 <= k < done.len() && entry_matches_host(#[trigger] done[k], host@) implies found || m by {
                        if k < before.len() {
                            assert(done[k] == before[k]);
                        }
                    }
                }
                found = found || m;
            }
            start = i + 1;
        } else {
            if start < i {
                assert(s.subrange(start as int, i + 1) =~= s.subrange(start as int, i as int).push(c));
            } else {
                assert(s.subrange(start as int, i + 1) =~= seq![c]);
            }
        }
        i = i + 1;
    }
    assert(s.take(i as int) =~= s);
    if start < i {
        let m = entry_matches(&b, start, i, &host);
        proof {
            let all = done.push(s.subrange(start as int, i as int));
            if found {
                let k = choose|k: int| 0 <= k < done.len() && entry_matches_host(#[trigger] done[k], host@);
                assert(all[k] == done[k]);
            }
            if m {
                assert(entry_matches_host(all[done.len() as int], host@));
            }
            assert forall|k: int| 0 <= k < all.len() && entry_matches_host(#[trigger] all[k], host@) implies found || m by {
                if k < done.len() {
                    assert(all[k] == done[k]);
                }
            }
        }
        found = found || m;
    }
    found
}

} // verus!
