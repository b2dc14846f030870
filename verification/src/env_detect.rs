//! Recognising the hosting provider, owner and repository of a git remote.
use vstd::prelude::*;
use vstd::string::*;
use vstd::utf8::decode_utf8;
use vstd::utf8::encode_utf8;
use vstd::utf8::valid_utf8;

use crate::percent::percent_decode;
use crate::percent::percent_decode_bytes;
use crate::percent::percent_encode;
use crate::percent::percent_encode_byte;
use crate::percent::percent_encode_bytes;
use crate::percent::lemma_percent_decode_encode;
use crate::percent::lemma_percent_encode_no_slash;
use crate::percent::lemma_percent_encode_keeps_unreserved;
use crate::percent::is_unreserved_char;
use crate::text::chars_of;
use crate::text::lemma_split_on_concat;
use crate::text::lemma_split_on_no_sep;
use crate::text::lemma_encode_scalar_len;
use crate::text::split_on;
use crate::text::split_str;
use crate::text::str_eq;
use crate::text::str_starts_with;
use crate::text::string_from_utf8;
use crate::text::string_views;

verus! {

broadcast use vstd::string::group_string_axioms;

/// A repository on a hosting provider.
#[derive(Debug, PartialEq, Eq)]
pub struct RepoRemote {
    pub provider: &'static str,
    pub owner: String,
    pub repo: String,
}

/// `(provider, owner, repo)` of a remote.
pub open spec fn remote_view(r: RepoRemote) -> (Seq<char>, Seq<char>, Seq<char>) {
    (r.provider@, r.owner@, r.repo@)
}

/// `s` without `suffix` when it ends with it.
pub open spec fn strip_suffix(s: Seq<char>, suffix: Seq<char>) -> Seq<char> {
    if suffix.is_suffix_of(s) {
        s.take(s.len() - suffix.len())
    } else {
        s
    }
}

/// A percent-encoded path segment, decoded; `None` when the decoded bytes
/// are not UTF-8.
pub open spec fn decoded_segment(seg: Seq<char>) -> Option<Seq<char>> {
    let bytes = percent_decode(encode_utf8(seg));
    if valid_utf8(bytes) {
        Some(decode_utf8(bytes))
    } else {
        None
    }
}

/// `owner/repo` of a GitHub remote, `.git` optional.
pub open spec fn github_remote(path: Seq<char>) -> Option<(Seq<char>, Seq<char>, Seq<char>)> {
    let parts = split_on(strip_suffix(path, ".git"@), '/');
    if parts.len() == 2 && parts[0].len() > 0 && parts[1].len() > 0 {
        Some(("github"@, parts[0], parts[1]))
    } else {
        None
    }
}

/// An Azure DevOps repository: the owner is `organization/project`, all
/// three decoded.
pub open spec fn azure_remote(org: Seq<char>, project: Seq<char>, repo: Seq<char>) -> Option<
    (Seq<char>, Seq<char>, Seq<char>),
> {
    match (decoded_segment(org), decoded_segment(project), decoded_segment(repo)) {
        (Some(o), Some(p), Some(r)) => Some(("azure_devops"@, o + "/"@ + p, r)),
        _ => None,
    }
}

/// `organization/project/_git/repo` of an HTTPS Azure DevOps remote.
pub open spec fn azure_https_remote(path: Seq<char>) -> Option<(Seq<char>, Seq<char>, Seq<char>)> {
    let parts = split_on(strip_suffix(path, ".git"@), '/');
    if parts.len() == 4 && parts[2] == "_git"@ && parts[0].len() > 0 && parts[1].len() > 0
        && parts[3].len() > 0 {
        azure_remote(parts[0], parts[1], parts[3])
    } else {
        None
    }
}

/// `organization/project/repo` of an SSH Azure DevOps remote.
pub open spec fn azure_ssh_remote(path: Seq<char>) -> Option<(Seq<char>, Seq<char>, Seq<char>)> {
    let parts = split_on(strip_suffix(path, ".git"@), '/');
    if parts.len() == 3 && parts[0].len() > 0 && parts[1].len() > 0 && parts[2].len() > 0 {
        azure_remote(parts[0], parts[1], parts[2])
    } else {
        None
    }
}

/// The remote that a git remote URL names, by its prefix.
pub open spec fn spec_parse_repo_remote(url: Seq<char>) -> Option<(Seq<char>, Seq<char>, Seq<char>)> {
    if "git@github.com:"@.is_prefix_of(url) {
        github_remote(url.skip("git@github.com:"@.len() as int))
    } else if "ssh://git@github.com/"@.is_prefix_of(url) {
        github_remote(url.skip("ssh://git@github.com/"@.len() as int))
    } else if "https://github.com/"@.is_prefix_of(url) {
        github_remote(url.skip("https://github.com/"@.len() as int))
    } else if "https://dev.azure.com/"@.is_prefix_of(url) {
        azure_https_remote(url.skip("https://dev.azure.com/"@.len() as int))
    } else if "git@ssh.dev.azure.com:v3/"@.is_prefix_of(url) {
        azure_ssh_remote(url.skip("git@ssh.dev.azure.com:v3/"@.len() as int))
    } else {
        None
    }
}

/// `s` without `suffix` when it ends with it.
fn strip_suffix_str<'a>(s: &'a str, suffix: &str) -> (r: &'a str)
    ensures
        r@ == strip_suffix(s@, suffix@),
{
    let sv = chars_of(s);
    let xv = chars_of(suffix);
    if xv.len() > sv.len() {
        return s;
    }
    let off = sv.len() - xv.len();
    let mut i: usize = 0;
    while i < xv.len()
        invariant
            i <= xv@.len(),
            off + xv@.len() == sv@.len(),
            sv@.len() == sv.len(),
            sv@ == s@,
            xv@ == suffix@,
            forall|j: int| 0 <= j < i ==> xv@[j] == sv@[off + j],
        decreases xv.len() - i,
    {
        if xv[i] != sv[off + i] {
            proof {
                assert(!suffix@.is_suffix_of(s@)) by {
                    if suffix@.is_suffix_of(s@) {
                        assert(s@.subrange(off as int, s@.len() as int)[i as int] == sv@[off + i]);
                    }
                }
            }
            return s;
        }
        i = i + 1;
    }
    assert(s@.subrange(off as int, s@.len() as int) =~= suffix@);
    s.substring_char(0, off)
}

/// The remote named by `path` when it is `owner/repo` of GitHub.
fn github_from_path(path: &str) -> (r: Option<RepoRemote>)
    ensures
        match r {
            Some(x) => github_remote(path@) == Some(remote_view(x)),
            None => github_remote(path@) is None,
        },
{
    let parts = split_str(strip_suffix_str(path, ".git"), '/');
    if parts.len() == 2 && !parts[0].as_str().is_empty() && !parts[1].as_str().is_empty() {
        Some(RepoRemote { provider: "github", owner: parts[0].clone(), repo: parts[1].clone() })
    } else {
        None
    }
}

/// Decodes a percent-encoded segment.
fn decode_segment(seg: &str) -> (r: Option<String>)
    ensures
        match r {
            Some(d) => decoded_segment(seg@) == Some(d@),
            None => decoded_segment(seg@) is None,
        },
{
    let bytes = percent_decode_bytes(seg.as_bytes());
    string_from_utf8(bytes)
}

fn azure_from_parts(org: &str, project: &str, repo: &str) -> (r: Option<RepoRemote>)
    ensures
        match r {
            Some(x) => azure_remote(org@, project@, repo@) == Some(remote_view(x)),
            None => azure_remote(org@, project@, repo@) is None,
        },
{
    let o = decode_segment(org);
    let p = decode_segment(project);
    let r = decode_segment(repo);
    match (o, p, r) {
        (Some(o), Some(p), Some(r)) => {
            let mut owner = o;
            owner.append("/");
            owner.append(p.as_str());
            Some(RepoRemote { provider: "azure_devops", owner, repo: r })
        },
        _ => None,
    }
}

/// Parses a git remote URL of GitHub (`git@github.com:`,
/// `ssh://git@github.com/`, `https://github.com/`) or Azure DevOps
/// (`https://dev.azure.com/…/_git/…`, `git@ssh.dev.azure.com:v3/…`); see
/// [`spec_parse_repo_remote`].
pub fn parse_repo_remote(url: &str) -> (r: Option<RepoRemote>)
    ensures
        match r {
            Some(x) => spec_parse_repo_remote(url@) == Some(remote_view(x)),
            None => spec_parse_repo_remote(url@) is None,
        },
{
    let n = url.unicode_len();
    if str_starts_with(url, "git@github.com:") {
        let k = "git@github.com:".unicode_len();
        return github_from_path(url.substring_char(k, n));
    }
    if str_starts_with(url, "ssh://git@github.com/") {
        let k = "ssh://git@github.com/".unicode_len();
        return github_from_path(url.substring_char(k, n));
    }
    if str_starts_with(url, "https://github.com/") {
        let k = "https://github.com/".unicode_len();
        return github_from_path(url.substring_char(k, n));
    }
    if str_starts_with(url, "https://dev.azure.com/") {
        let k = "https://dev.azure.com/".unicode_len();
        let parts = split_str(strip_suffix_str(url.substring_char(k, n), ".git"), '/');
        if parts.len() == 4 && str_eq(parts[2].as_str(), "_git") && !parts[0].as_str().is_empty()
            && !parts[1].as_str().is_empty() && !parts[3].as_str().is_empty() {
            return azure_from_parts(parts[0].as_str(), parts[1].as_str(), parts[3].as_str());
        }
        return None;
    }
    if str_starts_with(url, "git@ssh.dev.azure.com:v3/") {
        let k = "git@ssh.dev.azure.com:v3/".unicode_len();
        let parts = split_str(strip_suffix_str(url.substring_char(k, n), ".git"), '/');
        if parts.len() == 3 && !parts[0].as_str().is_empty() && !parts[1].as_str().is_empty()
            && !parts[2].as_str().is_empty() {
            return azure_from_parts(parts[0].as_str(), parts[1].as_str(), parts[2].as_str());
        }
        return None;
    }
    None
}

/// The path of a repository in `by-repo` form: the provider, then the owner
/// and the repository name percent-encoded (so a `/` inside the owner
/// becomes `%2F`).
pub open spec fn by_repo_path_of(provider: Seq<char>, owner: Seq<char>, repo: Seq<char>) -> Seq<char> {
    provider + "/"@ + percent_encode(encode_utf8(owner)) + "/"@ + percent_encode(encode_utf8(repo))
}

impl RepoRemote {
    /// See [`by_repo_path_of`].
    pub fn by_repo_path(&self) -> (r: String)
        ensures
            r@ == by_repo_path_of(self.provider@, self.owner@, self.repo@),
    {
        let mut out = self.provider.to_string();
        out.append("/");
        let owner = percent_encode_bytes(self.owner.as_str().as_bytes());
        out.append(owner.as_str());
        out.append("/");
        let repo = percent_encode_bytes(self.repo.as_str().as_bytes());
        out.append(repo.as_str());
        out
    }
}

/// The `by-repo` path keeps provider, owner and repository apart: it has
/// exactly three `/`-separated segments, and the owner and repository
/// segments decode back to the owner and repository, whatever characters
/// (a `/` included) they hold.
pub proof fn lemma_by_repo_path_round_trip(provider: Seq<char>, owner: Seq<char>, repo: Seq<char>)
    requires
        !provider.contains('/'),
    ensures
        split_on(by_repo_path_of(provider, owner, repo), '/') == seq![
            provider,
            percent_encode(encode_utf8(owner)),
            percent_encode(encode_utf8(repo)),
        ],
        decoded_segment(percent_encode(encode_utf8(owner))) == Some(owner),
        decoded_segment(percent_encode(encode_utf8(repo))) == Some(repo),
{
    let o = percent_encode(encode_utf8(owner));
    let r = percent_encode(encode_utf8(repo));
    reveal_strlit("/");
    assert("/"@ =~= seq!['/']);
    lemma_percent_encode_no_slash(encode_utf8(owner));
    lemma_percent_encode_no_slash(encode_utf8(repo));
    lemma_split_on_concat(o, r, '/');
    lemma_split_on_concat(provider, o + seq!['/'] + r, '/');
    assert(by_repo_path_of(provider, owner, repo) =~= provider + seq!['/'] + (o + seq!['/'] + r));
    lemma_split_on_no_sep(provider, '/');
    lemma_split_on_no_sep(o, '/');
    lemma_split_on_no_sep(r, '/');
    assert(seq![provider] + (seq![o] + seq![r]) =~= seq![provider, o, r]);
    lemma_percent_decode_encode(encode_utf8(owner));
    lemma_percent_decode_encode(encode_utf8(repo));
    vstd::utf8::encode_utf8_valid_utf8(owner);
    vstd::utf8::encode_utf8_valid_utf8(repo);
    vstd::utf8::encode_utf8_decode_utf8(owner);
    vstd::utf8::encode_utf8_decode_utf8(repo);
}

/// An owner and a repository made of unreserved characters (ASCII
/// letters, digits, `-`, `.`, `_`, `~`) stand in the `by-repo` path as
/// they are.
pub proof fn lemma_by_repo_path_keeps_plain_names(
    provider: Seq<char>,
    owner: Seq<char>,
    repo: Seq<char>,
)
    requires
        forall|i: int| 0 <= i < owner.len() ==> is_unreserved_char(#[trigger] owner[i]),
        forall|i: int| 0 <= i < repo.len() ==> is_unreserved_char(#[trigger] repo[i]),
    ensures
        by_repo_path_of(provider, owner, repo) == provider + seq!['/'] + owner + seq!['/'] + repo,
{
    reveal_strlit("/");
    assert("/"@ =~= seq!['/']);
    lemma_percent_encode_keeps_unreserved(owner);
    lemma_percent_encode_keeps_unreserved(repo);
}

proof fn lemma_prefix_before_git(prefix: Seq<char>, u: Seq<char>)
    requires
        prefix.len() > 0,
        prefix.last() == ':' || prefix.last() == '/',
    ensures
        prefix.is_prefix_of(u + ".git"@) == prefix.is_prefix_of(u),
{
    reveal_strlit(".git");
    let g = ".git"@;
    let ug = u + g;
    if prefix.is_prefix_of(u) {
        assert(ug.subrange(0, prefix.len() as int) =~= u.subrange(0, prefix.len() as int));
    }
    if prefix.is_prefix_of(ug) {
        if prefix.len() <= u.len() {
            assert(ug.subrange(0, prefix.len() as int) =~= u.subrange(0, prefix.len() as int));
        } else {
            let j = prefix.len() - 1;
            assert(prefix[j] == ug[j]);
            assert(ug[j] == g[j - u.len()]);
        }
    }
}

proof fn lemma_strip_git_tail(u: Seq<char>, k: int)
    requires
        0 <= k <= u.len(),
        !".git"@.is_suffix_of(u),
    ensures
        strip_suffix((u + ".git"@).skip(k), ".git"@) == strip_suffix(u.skip(k), ".git"@),
{
    let g = ".git"@;
    let x = u.skip(k);
    assert((u + g).skip(k) =~= x + g);
    assert((x + g).subrange(x.len() as int, (x + g).len() as int) =~= g);
    assert((x + g).take(x.len() as int) =~= x);
    if g.is_suffix_of(x) {
        assert(u.subrange(u.len() - g.len(), u.len() as int) =~= x.subrange(
            x.len() - g.len(),
            x.len() as int,
        ));
    }
}

/// The `.git` suffix of a remote URL is optional: a URL that does not end
/// in `.git` names the same remote as that URL followed by `.git`.
pub proof fn lemma_git_suffix_optional(u: Seq<char>)
    requires
        !".git"@.is_suffix_of(u),
    ensures
        spec_parse_repo_remote(u + ".git"@) == spec_parse_repo_remote(u),
{
    reveal_strlit("git@github.com:");
    reveal_strlit("ssh://git@github.com/");
    reveal_strlit("https://github.com/");
    reveal_strlit("https://dev.azure.com/");
    reveal_strlit("git@ssh.dev.azure.com:v3/");
    lemma_prefix_before_git("git@github.com:"@, u);
    lemma_prefix_before_git("ssh://git@github.com/"@, u);
    lemma_prefix_before_git("https://github.com/"@, u);
    lemma_prefix_before_git("https://dev.azure.com/"@, u);
    lemma_prefix_before_git("git@ssh.dev.azure.com:v3/"@, u);
    if "git@github.com:"@.is_prefix_of(u) {
        lemma_strip_git_tail(u, "git@github.com:"@.len() as int);
    } else if "ssh://git@github.com/"@.is_prefix_of(u) {
        lemma_strip_git_tail(u, "ssh://git@github.com/"@.len() as int);
    } else if "https://github.com/"@.is_prefix_of(u) {
        lemma_strip_git_tail(u, "https://github.com/"@.len() as int);
    } else if "https://dev.azure.com/"@.is_prefix_of(u) {
        lemma_strip_git_tail(u, "https://dev.azure.com/"@.len() as int);
    } else if "git@ssh.dev.azure.com:v3/"@.is_prefix_of(u) {
        lemma_strip_git_tail(u, "git@ssh.dev.azure.com:v3/"@.len() as int);
    }
}

proof fn lemma_encoded_segment_nonempty(x: Seq<char>)
    requires
        x.len() > 0,
    ensures
        percent_encode(encode_utf8(x)).len() > 0,
{
    lemma_encode_scalar_len(x[0]);
    let bs = encode_utf8(x);
    assert(bs.len() > 0);
    assert(percent_encode(bs) == percent_encode_byte(bs[0]) + percent_encode(bs.skip(1)));
}

proof fn lemma_azure_https_prefix(tail: Seq<char>)
    ensures
        spec_parse_repo_remote("https://dev.azure.com/"@ + tail) == azure_https_remote(tail),
{
    let base = "https://dev.azure.com/"@;
    let url = base + tail;
    reveal_strlit("https://dev.azure.com/");
    reveal_strlit("git@github.com:");
    reveal_strlit("ssh://git@github.com/");
    reveal_strlit("https://github.com/");
    assert(url.subrange(0, base.len() as int) =~= base);
    assert(url.skip(base.len() as int) =~= tail);
    assert(url[0] == 'h');
    assert(url[8] == 'd');
    assert(!"git@github.com:"@.is_prefix_of(url)) by {
        if "git@github.com:"@.is_prefix_of(url) {
            assert(url.subrange(0, 15)[0] == 'g');
        }
    }
    assert(!"ssh://git@github.com/"@.is_prefix_of(url)) by {
        if "ssh://git@github.com/"@.is_prefix_of(url) {
            assert(url.subrange(0, 21)[0] == 's');
        }
    }
    assert(!"https://github.com/"@.is_prefix_of(url)) by {
        if "https://github.com/"@.is_prefix_of(url) {
            assert(url.subrange(0, 19)[8] == 'g');
        }
    }
}

proof fn lemma_no_git_suffix_after(a: Seq<char>, b: Seq<char>)
    requires
        !".git"@.is_suffix_of(b),
        b.len() >= 4 || b.contains('/'),
    ensures
        !".git"@.is_suffix_of(a + b),
{
    reveal_strlit(".git");
    let g = ".git"@;
    let ab = a + b;
    if g.is_suffix_of(ab) {
        if b.len() >= 4 {
            assert(ab.subrange(ab.len() - 4, ab.len() as int) =~= b.subrange(
                b.len() - 4,
                b.len() as int,
            ));
        } else {
            let i = choose|i: int| 0 <= i < b.len() && b[i] == '/';
            let j = a.len() + i;
            assert(ab[j] == '/');
            assert(ab[j] == g[j - (ab.len() - 4)]);
        }
    }
}

proof fn lemma_azure_https_path(o: Seq<char>, p: Seq<char>, r: Seq<char>)
    requires
        o.len() > 0,
        p.len() > 0,
        r.len() > 0,
        !o.contains('/'),
        !p.contains('/'),
        !r.contains('/'),
        !".git"@.is_suffix_of(r),
    ensures
        azure_https_remote(o + "/"@ + p + "/_git/"@ + r) == azure_remote(o, p, r),
        !".git"@.is_suffix_of(o + "/"@ + p + "/_git/"@ + r),
        (o + "/"@ + p + "/_git/"@ + r).len() >= 4,
{
    reveal_strlit("/");
    reveal_strlit("/_git/");
    reveal_strlit("_git");
    reveal_strlit(".git");
    let sl = seq!['/'];
    let g = "_git"@;
    let path = o + "/"@ + p + "/_git/"@ + r;
    assert(path =~= o + sl + (p + sl + (g + sl + r)));
    let dg = ".git"@;
    assert(!dg.is_suffix_of(path)) by {
        if dg.is_suffix_of(path) {
            if r.len() >= 4 {
                assert(r.subrange(r.len() - 4, r.len() as int) =~= path.subrange(
                    path.len() - 4,
                    path.len() as int,
                ));
            } else {
                let j = path.len() - 1 - r.len();
                assert(path[j] == '/');
                assert(path[j] == dg[j - (path.len() - 4)]);
            }
        }
    }
    assert(!g.contains('/')) by {
        if g.contains('/') {
            let i = choose|i: int| 0 <= i < g.len() && g[i] == '/';
        }
    }
    lemma_split_on_concat(g, r, '/');
    lemma_split_on_concat(p, g + sl + r, '/');
    lemma_split_on_concat(o, p + sl + (g + sl + r), '/');
    lemma_split_on_no_sep(o, '/');
    lemma_split_on_no_sep(p, '/');
    lemma_split_on_no_sep(g, '/');
    lemma_split_on_no_sep(r, '/');
    assert(split_on(strip_suffix(path, dg), '/') =~= seq![o, p, g, r]);
}

/// An HTTPS Azure DevOps remote `https://dev.azure.com/<org>/<project>/_git/<repo>`,
/// each segment percent-encoded (so it holds no `/`), is the Azure DevOps
/// repository `<repo>` of the owner `<org>/<project>`, whatever characters
/// the three names hold, with or without a final `.git`.
pub proof fn lemma_azure_https_remote_parses(org: Seq<char>, project: Seq<char>, repo: Seq<char>)
    requires
        org.len() > 0,
        project.len() > 0,
        repo.len() > 0,
        !".git"@.is_suffix_of(percent_encode(encode_utf8(repo))),
    ensures
        ({
            let url = "https://dev.azure.com/"@ + percent_encode(encode_utf8(org)) + "/"@
                + percent_encode(encode_utf8(project)) + "/_git/"@ + percent_encode(
                encode_utf8(repo),
            );
            &&& spec_parse_repo_remote(url) == Some(("azure_devops"@, org + "/"@ + project, repo))
            &&& spec_parse_repo_remote(url + ".git"@) == Some(
                ("azure_devops"@, org + "/"@ + project, repo),
            )
        }),
{
    let o = percent_encode(encode_utf8(org));
    let p = percent_encode(encode_utf8(project));
    let r = percent_encode(encode_utf8(repo));
    let base = "https://dev.azure.com/"@;
    let path = o + "/"@ + p + "/_git/"@ + r;
    let url = base + o + "/"@ + p + "/_git/"@ + r;
    assert(url =~= base + path);
    lemma_encoded_segment_nonempty(org);
    lemma_encoded_segment_nonempty(project);
    lemma_encoded_segment_nonempty(repo);
    lemma_percent_encode_no_slash(encode_utf8(org));
    lemma_percent_encode_no_slash(encode_utf8(project));
    lemma_percent_encode_no_slash(encode_utf8(repo));
    lemma_azure_https_path(o, p, r);
    lemma_azure_https_prefix(path);
    lemma_by_repo_path_round_trip(Seq::empty(), org, repo);
    lemma_by_repo_path_round_trip(Seq::empty(), project, repo);
    lemma_no_git_suffix_after(base, path);
    lemma_git_suffix_optional(url);
}

proof fn lemma_github_prefixes(tail: Seq<char>)
    ensures
        spec_parse_repo_remote("git@github.com:"@ + tail) == github_remote(tail),
        spec_parse_repo_remote("ssh://git@github.com/"@ + tail) == github_remote(tail),
        spec_parse_repo_remote("https://github.com/"@ + tail) == github_remote(tail),
{
    reveal_strlit("git@github.com:");
    reveal_strlit("ssh://git@github.com/");
    reveal_strlit("https://github.com/");
    let a = "git@github.com:"@ + tail;
    let b = "ssh://git@github.com/"@ + tail;
    let c = "https://github.com/"@ + tail;
    assert(a.subrange(0, 15) =~= "git@github.com:"@);
    assert(a.skip(15) =~= tail);
    assert(b.subrange(0, 21) =~= "ssh://git@github.com/"@);
    assert(b.skip(21) =~= tail);
    assert(c.subrange(0, 19) =~= "https://github.com/"@);
    assert(c.skip(19) =~= tail);
    assert(b[0] == 's');
    assert(c[0] == 'h');
    assert(!"git@github.com:"@.is_prefix_of(b)) by {
        if "git@github.com:"@.is_prefix_of(b) {
            assert(b.subrange(0, 15)[0] == 'g');
        }
    }
    assert(!"git@github.com:"@.is_prefix_of(c)) by {
        if "git@github.com:"@.is_prefix_of(c) {
            assert(c.subrange(0, 15)[0] == 'g');
        }
    }
    assert(!"ssh://git@github.com/"@.is_prefix_of(c)) by {
        if "ssh://git@github.com/"@.is_prefix_of(c) {
            assert(c.subrange(0, 21)[0] == 's');
        }
    }
}

proof fn lemma_github_path(owner: Seq<char>, repo: Seq<char>)
    requires
        owner.len() > 0,
        repo.len() > 0,
        !owner.contains('/'),
        !repo.contains('/'),
        !".git"@.is_suffix_of(repo),
    ensures
        github_remote(owner + "/"@ + repo) == Some(("github"@, owner, repo)),
        !".git"@.is_suffix_of(owner + "/"@ + repo),
        (owner + "/"@ + repo).contains('/'),
{
    reveal_strlit("/");
    reveal_strlit(".git");
    let path = owner + "/"@ + repo;
    assert(path =~= owner + seq!['/'] + repo);
    assert(path[owner.len() as int] == '/');
    let dg = ".git"@;
    assert(!dg.is_suffix_of(path)) by {
        if dg.is_suffix_of(path) {
            if repo.len() >= 4 {
                assert(repo.subrange(repo.len() - 4, repo.len() as int) =~= path.subrange(
                    path.len() - 4,
                    path.len() as int,
                ));
            } else {
                let j = path.len() - 1 - repo.len();
                assert(path[j] == '/');
                assert(path[j] == dg[j - (path.len() - 4)]);
            }
        }
    }
    lemma_split_on_concat(owner, repo, '/');
    lemma_split_on_no_sep(owner, '/');
    lemma_split_on_no_sep(repo, '/');
    assert(split_on(strip_suffix(path, dg), '/') =~= seq![owner, repo]);
}

/// A GitHub remote `git@github.com:<owner>/<repo>`,
/// `ssh://git@github.com/<owner>/<repo>` or `https://github.com/<owner>/<repo>`,
/// with or without a final `.git`, is the GitHub repository `<repo>` of
/// `<owner>`.
pub proof fn lemma_github_remote_parses(owner: Seq<char>, repo: Seq<char>)
    requires
        owner.len() > 0,
        repo.len() > 0,
        !owner.contains('/'),
        !repo.contains('/'),
        !".git"@.is_suffix_of(repo),
    ensures
        ({
            let path = owner + "/"@ + repo;
            let remote = Some(("github"@, owner, repo));
            &&& spec_parse_repo_remote("git@github.com:"@ + path) == remote
            &&& spec_parse_repo_remote("ssh://git@github.com/"@ + path) == remote
            &&& spec_parse_repo_remote("https://github.com/"@ + path) == remote
            &&& spec_parse_repo_remote("git@github.com:"@ + path + ".git"@) == remote
            &&& spec_parse_repo_remote("ssh://git@github.com/"@ + path + ".git"@) == remote
            &&& spec_parse_repo_remote("https://github.com/"@ + path + ".git"@) == remote
        }),
{
    let path = owner + "/"@ + repo;
    lemma_github_path(owner, repo);
    lemma_github_prefixes(path);
    reveal_strlit(".git");
    lemma_no_git_suffix_after("git@github.com:"@, path);
    lemma_no_git_suffix_after("ssh://git@github.com/"@, path);
    lemma_no_git_suffix_after("https://github.com/"@, path);
    lemma_git_suffix_optional("git@github.com:"@ + path);
    lemma_git_suffix_optional("ssh://git@github.com/"@ + path);
    lemma_git_suffix_optional("https://github.com/"@ + path);
}

proof fn lemma_azure_ssh_prefix(tail: Seq<char>)
    ensures
        spec_parse_repo_remote("git@ssh.dev.azure.com:v3/"@ + tail) == azure_ssh_remote(tail),
{
    let base = "git@ssh.dev.azure.com:v3/"@;
    let url = base + tail;
    reveal_strlit("git@ssh.dev.azure.com:v3/");
    reveal_strlit("git@github.com:");
    reveal_strlit("ssh://git@github.com/");
    reveal_strlit("https://github.com/");
    reveal_strlit("https://dev.azure.com/");
    assert(url.subrange(0, base.len() as int) =~= base);
    assert(url.skip(base.len() as int) =~= tail);
    assert(url[0] == 'g');
    assert(url[4] == 's');
    assert(!"git@github.com:"@.is_prefix_of(url)) by {
        if "git@github.com:"@.is_prefix_of(url) {
            assert(url.subrange(0, 15)[4] == 'g');
        }
    }
    assert(!"ssh://git@github.com/"@.is_prefix_of(url)) by {
        if "ssh://git@github.com/"@.is_prefix_of(url) {
            assert(url.subrange(0, 21)[0] == 's');
        }
    }
    assert(!"https://github.com/"@.is_prefix_of(url)) by {
        if "https://github.com/"@.is_prefix_of(url) {
            assert(url.subrange(0, 19)[0] == 'h');
        }
    }
    assert(!"https://dev.azure.com/"@.is_prefix_of(url)) by {
        if "https://dev.azure.com/"@.is_prefix_of(url) {
            assert(url.subrange(0, 22)[0] == 'h');
        }
    }
}

proof fn lemma_azure_ssh_path(o: Seq<char>, p: Seq<char>, r: Seq<char>)
    requires
        o.len() > 0,
        p.len() > 0,
        r.len() > 0,
        !o.contains('/'),
        !p.contains('/'),
        !r.contains('/'),
        !".git"@.is_suffix_of(r),
    ensures
        azure_ssh_remote(o + "/"@ + p + "/"@ + r) == azure_remote(o, p, r),
        !".git"@.is_suffix_of(o + "/"@ + p + "/"@ + r),
        (o + "/"@ + p + "/"@ + r).contains('/'),
{
    reveal_strlit("/");
    reveal_strlit(".git");
    let sl = seq!['/'];
    let path = o + "/"@ + p + "/"@ + r;
    assert(path =~= (o + sl + p) + sl + r);
    assert(path[o.len() as int] == '/');
    let dg = ".git"@;
    assert(!dg.is_suffix_of(path)) by {
        if dg.is_suffix_of(path) {
            if r.len() >= 4 {
                assert(r.subrange(r.len() - 4, r.len() as int) =~= path.subrange(
                    path.len() - 4,
                    path.len() as int,
                ));
            } else {
                let j = path.len() - 1 - r.len();
                assert(path[j] == '/');
                assert(path[j] == dg[j - (path.len() - 4)]);
            }
        }
    }
    assert(path =~= o + sl + (p + sl + r));
    lemma_split_on_concat(p, r, '/');
    lemma_split_on_concat(o, p + sl + r, '/');
    lemma_split_on_no_sep(o, '/');
    lemma_split_on_no_sep(p, '/');
    lemma_split_on_no_sep(r, '/');
    assert(split_on(strip_suffix(path, dg), '/') =~= seq![o, p, r]);
}

/// An SSH Azure DevOps remote `git@ssh.dev.azure.com:v3/<org>/<project>/<repo>`,
/// each segment percent-encoded, is the Azure DevOps repository `<repo>` of
/// the owner `<org>/<project>`, with or without a final `.git`.
pub proof fn lemma_azure_ssh_remote_parses(org: Seq<char>, project: Seq<char>, repo: Seq<char>)
    requires
        org.len() > 0,
        project.len() > 0,
        repo.len() > 0,
        !".git"@.is_suffix_of(percent_encode(encode_utf8(repo))),
    ensures
        ({
            let url = "git@ssh.dev.azure.com:v3/"@ + percent_encode(encode_utf8(org)) + "/"@
                + percent_encode(encode_utf8(project)) + "/"@ + percent_encode(encode_utf8(repo));
            &&& spec_parse_repo_remote(url) == Some(("azure_devops"@, org + "/"@ + project, repo))
            &&& spec_parse_repo_remote(url + ".git"@) == Some(
                ("azure_devops"@, org + "/"@ + project, repo),
            )
        }),
{
    let o = percent_encode(encode_utf8(org));
    let p = percent_encode(encode_utf8(project));
    let r = percent_encode(encode_utf8(repo));
    let base = "git@ssh.dev.azure.com:v3/"@;
    let path = o + "/"@ + p + "/"@ + r;
    let url = base + o + "/"@ + p + "/"@ + r;
    assert(url =~= base + path);
    lemma_encoded_segment_nonempty(org);
    lemma_encoded_segment_nonempty(project);
    lemma_encoded_segment_nonempty(repo);
    lemma_percent_encode_no_slash(encode_utf8(org));
    lemma_percent_encode_no_slash(encode_utf8(project));
    lemma_percent_encode_no_slash(encode_utf8(repo));
    lemma_azure_ssh_path(o, p, r);
    lemma_azure_ssh_prefix(path);
    lemma_by_repo_path_round_trip(Seq::empty(), org, repo);
    lemma_by_repo_path_round_trip(Seq::empty(), project, repo);
    lemma_no_git_suffix_after(base, path);
    lemma_git_suffix_optional(url);
}

} // verus!
