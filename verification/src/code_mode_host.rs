//! Where the code-mode host program is looked for.
use vstd::prelude::*;
use vstd::string::*;

use crate::text::chars_of;

verus! {

broadcast use vstd::string::group_string_axioms;

/// The file name of the code-mode host program on the target platform.
pub open spec fn host_executable_name(windows: bool) -> Seq<char> {
    if windows {
        "codex-code-mode-host.exe"@
    } else {
        "codex-code-mode-host"@
    }
}

/// Whether `c` separates path components: `/`, and on Windows `\` too.
pub open spec fn is_separator(c: char, windows: bool) -> bool {
    c == '/' || (windows && c == '\\')
}

/// `s` without its trailing separators.
pub open spec fn trim_separators(s: Seq<char>, windows: bool) -> Seq<char>
    decreases s.len(),
{
    if s.len() > 0 && is_separator(s.last(), windows) {
        trim_separators(s.drop_last(), windows)
    } else {
        s
    }
}

/// The position of the last separator in `s`.
pub open spec fn last_separator(s: Seq<char>, windows: bool) -> Option<int>
    decreases s.len(),
{
    if s.len() == 0 {
        None
    } else if is_separator(s.last(), windows) {
        Some(s.len() - 1)
    } else {
        last_separator(s.drop_last(), windows)
    }
}

/// The separator that joins a directory and a file name.
pub open spec fn main_separator(windows: bool) -> Seq<char> {
    if windows {
        "\\"@
    } else {
        "/"@
    }
}

/// `name` in the directory of the file `path`. Trailing separators of
/// `path` are ignored; the directory is the text before the last
/// separator, without the separators that end it. When nothing is left of
/// it the directory is the root (the first separator); a path without a
/// separator has no directory and gives `name` alone.
pub open spec fn sibling_path(path: Seq<char>, name: Seq<char>, windows: bool) -> Seq<char> {
    let p = trim_separators(path, windows);
    match last_separator(p, windows) {
        Some(k) => {
            let dir = trim_separators(p.take(k), windows);
            if dir.len() == 0 {
                p.take(1) + name
            } else {
                dir + main_separator(windows) + name
            }
        },
        None => name,
    }
}

/// The host program: the override when one is given, else the host next to
/// the main executable (after symlinks are resolved, which the caller does),
/// else the bare file name, to be looked up on `PATH`.
pub open spec fn spec_host_program(
    override_path: Option<Seq<char>>,
    current_exe: Option<Seq<char>>,
    windows: bool,
) -> Seq<char> {
    match override_path {
        Some(p) => p,
        None => match current_exe {
            Some(exe) => sibling_path(exe, host_executable_name(windows), windows),
            None => host_executable_name(windows),
        },
    }
}

proof fn lemma_last_separator_in_range(s: Seq<char>, windows: bool)
    ensures
        last_separator(s, windows) matches Some(k) ==> 0 <= k < s.len(),
    decreases s.len(),
{
    if s.len() > 0 && !is_separator(s.last(), windows) {
        lemma_last_separator_in_range(s.drop_last(), windows);
    }
}

fn host_name(windows: bool) -> (r: &'static str)
    ensures
        r@ == host_executable_name(windows),
{
    if windows {
        "codex-code-mode-host.exe"
    } else {
        "codex-code-mode-host"
    }
}

fn separator_char(c: char, windows: bool) -> (r: bool)
    ensures
        r == is_separator(c, windows),
{
    c == '/' || (windows && c == '\\')
}

/// The length of `cs[..end]` without its trailing separators.
fn trimmed_len(cs: &Vec<char>, end: usize, windows: bool) -> (r: usize)
    requires
        end <= cs@.len(),
    ensures
        r <= end,
        cs@.take(r as int) == trim_separators(cs@.take(end as int), windows),
{
    let mut i = end;
    while i > 0 && separator_char(cs[i - 1], windows)
        invariant
            i <= end <= cs@.len(),
            trim_separators(cs@.take(end as int), windows) == trim_separators(
                cs@.take(i as int),
                windows,
            ),
        decreases i,
    {
        assert(cs@.take(i as int).drop_last() =~= cs@.take(i - 1));
        i = i - 1;
    }
    i
}

/// The position of the last separator in `cs[..end]`.
fn last_separator_before(cs: &Vec<char>, end: usize, windows: bool) -> (r: Option<usize>)
    requires
        end <= cs@.len(),
    ensures
        match r {
            Some(k) => last_separator(cs@.take(end as int), windows) == Some(k as int),
            None => last_separator(cs@.take(end as int), windows) is None,
        },
{
    let mut i = end;
    while i > 0
        invariant
            i <= end <= cs@.len(),
            last_separator(cs@.take(end as int), windows) == last_separator(
                cs@.take(i as int),
                windows,
            ),
        decreases i,
    {
        assert(cs@.take(i as int).drop_last() =~= cs@.take(i - 1));
        if separator_char(cs[i - 1], windows) {
            return Some(i - 1);
        }
        i = i - 1;
    }
    None
}

/// `name` in the directory of `exe`; see [`sibling_path`].
fn sibling_of(exe: &str, name: &str, windows: bool) -> (r: String)
    ensures
        r@ == sibling_path(exe@, name@, windows),
{
    let cs = chars_of(exe);
    assert(cs@.take(cs@.len() as int) =~= cs@);
    let n = trimmed_len(&cs, cs.len(), windows);
    let ghost p = cs@.take(n as int);
    match last_separator_before(&cs, n, windows) {
        Some(k) => {
            proof {
                lemma_last_separator_in_range(p, windows);
            }
            assert(p.take(k as int) =~= cs@.take(k as int));
            let d = trimmed_len(&cs, k, windows);
            let mut out = if d == 0 {
                assert(p.take(1) =~= exe@.subrange(0, 1));
                exe.substring_char(0, 1).to_string()
            } else {
                assert(cs@.take(d as int) =~= exe@.subrange(0, d as int));
                let mut dir = exe.substring_char(0, d).to_string();
                if windows {
                    dir.append("\\");
                } else {
                    dir.append("/");
                }
                dir
            };
            out.append(name);
            out
        },
        None => name.to_string(),
    }
}

/// Resolves the host program; see [`spec_host_program`]. `current_exe` is
/// the main executable's path, `None` when it is unknown.
pub fn resolve_host_program(
    override_path: Option<String>,
    current_exe: Option<String>,
    windows: bool,
) -> (r: String)
    ensures
        r@ == spec_host_program(
            match override_path {
                Some(p) => Some(p@),
                None => None,
            },
            match current_exe {
                Some(e) => Some(e@),
                None => None,
            },
            windows,
        ),
{
    if let Some(p) = override_path {
        return p;
    }
    let name = host_name(windows);
    match current_exe {
        Some(exe) => sibling_of(exe.as_str(), name, windows),
        None => name.to_string(),
    }
}

proof fn lemma_last_separator_after(dir: Seq<char>, file: Seq<char>, sep: char, windows: bool)
    requires
        is_separator(sep, windows),
        forall|i: int| 0 <= i < file.len() ==> !is_separator(#[trigger] file[i], windows),
    ensures
        last_separator(dir + seq![sep] + file, windows) == Some(dir.len() as int),
    decreases file.len(),
{
    let path = dir + seq![sep] + file;
    if file.len() == 0 {
        assert(path.last() == sep);
    } else {
        assert(path.drop_last() =~= dir + seq![sep] + file.drop_last());
        assert(path.last() == file[file.len() - 1]);
        lemma_last_separator_after(dir, file.drop_last(), sep, windows);
    }
}

/// When the main executable is a file name after a directory and a
/// separator (`/`, or on Windows also `\\`), the host program is that
/// directory joined with the host's file name, whatever characters the
/// directory holds.
pub proof fn lemma_host_next_to_executable(
    dir: Seq<char>,
    sep: char,
    file: Seq<char>,
    windows: bool,
)
    requires
        sep == '/' || (windows && sep == '\\'),
        dir.len() > 0,
        dir.last() != '/',
        windows ==> dir.last() != '\\',
        file.len() > 0,
        forall|i: int| 0 <= i < file.len() ==> #[trigger] file[i] != '/' && (windows ==> file[i]
            != '\\'),
    ensures
        spec_host_program(None, Some(dir + seq![sep] + file), windows) == dir + (if windows {
            seq!['\\']
        } else {
            seq!['/']
        }) + host_executable_name(windows),
{
    let path = dir + seq![sep] + file;
    assert(path.last() == file.last());
    assert(trim_separators(path, windows) == path);
    assert forall|i: int| 0 <= i < file.len() implies !is_separator(#[trigger] file[i], windows) by {
        assert(file[i] != '/');
    }
    lemma_last_separator_after(dir, file, sep, windows);
    assert(path.take(dir.len() as int) =~= dir);
    assert(trim_separators(dir, windows) == dir);
    reveal_strlit("/");
    reveal_strlit("\\");
}

/// A main executable directly under the root directory has the host
/// program beside it, under the root.
pub proof fn lemma_host_under_root(sep: char, file: Seq<char>, windows: bool)
    requires
        sep == '/' || (windows && sep == '\\'),
        file.len() > 0,
        forall|i: int| 0 <= i < file.len() ==> #[trigger] file[i] != '/' && (windows ==> file[i]
            != '\\'),
    ensures
        spec_host_program(None, Some(seq![sep] + file), windows) == seq![sep]
            + host_executable_name(windows),
{
    let path = seq![sep] + file;
    assert(path =~= Seq::<char>::empty() + seq![sep] + file);
    assert(path.last() == file.last());
    assert(trim_separators(path, windows) == path);
    assert forall|i: int| 0 <= i < file.len() implies !is_separator(#[trigger] file[i], windows) by {
        assert(file[i] != '/');
    }
    lemma_last_separator_after(Seq::empty(), file, sep, windows);
    assert(path.take(0) =~= Seq::<char>::empty());
    assert(path.take(1) =~= seq![sep]);
}

/// A main executable given by a bare file name, without a directory, has
/// the host program looked up by its bare file name too.
pub proof fn lemma_host_of_bare_executable(file: Seq<char>, windows: bool)
    requires
        forall|i: int| 0 <= i < file.len() ==> #[trigger] file[i] != '/' && (windows ==> file[i]
            != '\\'),
    ensures
        spec_host_program(None, Some(file), windows) == host_executable_name(windows),
{
    if file.len() > 0 {
        assert(file.last() == file[file.len() - 1]);
        assert(trim_separators(file, windows) == file);
        lemma_no_separator(file, windows);
    } else {
        assert(trim_separators(file, windows) == file);
    }
}

proof fn lemma_no_separator(s: Seq<char>, windows: bool)
    requires
        forall|i: int| 0 <= i < s.len() ==> #[trigger] s[i] != '/' && (windows ==> s[i] != '\\'),
    ensures
        last_separator(s, windows) is None,
    decreases s.len(),
{
    if s.len() > 0 {
        assert(s.last() == s[s.len() - 1]);
        let t = s.drop_last();
        assert forall|i: int| 0 <= i < t.len() implies #[trigger] t[i] != '/' && (windows ==> t[i]
            != '\\') by {
            assert(t[i] == s[i]);
        }
        lemma_no_separator(t, windows);
    }
}

/// An override is the host program as given; with no override and no
/// known main executable the host is looked up by its bare file name.
pub proof fn lemma_host_override_and_unknown_executable(
    override_path: Seq<char>,
    current_exe: Option<Seq<char>>,
    windows: bool,
)
    ensures
        spec_host_program(Some(override_path), current_exe, windows) == override_path,
        spec_host_program(None, None, windows) == host_executable_name(windows),
{
}

} // verus!
