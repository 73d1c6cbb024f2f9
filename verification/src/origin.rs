//! Repository identity from git metadata: reading `origin` out of a git config and
//! normalizing its URL so that equivalent transports give one identity.

use vstd::prelude::*;
use vstd::string::*;

use crate::text::{
    ascii_lower, ascii_lower_chars, chars_equal, chars_have_prefix, chars_of, find_char, has_prefix,
    has_suffix, rfind_char, rsplit_once_spec, slice_chars, split_chars, split_on, split_once_spec,
    string_from_chars, strip_prefix_chars, strip_prefix_spec, trim, trim_end_char,
    trim_end_char_chars, trim_end_text, trim_end_text_chars, trim_range, trim_start_char,
    trim_start_char_chars, char_views, first_index, last_index, is_space, trim_start, trim_end,
};

verus! {

/// The lines of a text as `str::lines` yields them: split at `\n`, a `\r` right before a
/// `\n` dropped, and no empty last line after a final line ending.
pub open spec fn lines_spec(s: Seq<char>) -> Seq<Seq<char>> {
    let pieces = split_on(s, '\n');
    let n = if pieces.last().len() == 0 {
        pieces.len() - 1
    } else {
        pieces.len() as int
    };
    Seq::new(
        n as nat,
        |i: int|
            if i < pieces.len() - 1 && has_suffix(pieces[i], seq!['\r']) {
                pieces[i].drop_last()
            } else {
                pieces[i]
            },
    )
}

/// The lines of the text.
pub fn text_lines(v: &Vec<char>) -> (lines: Vec<Vec<char>>)
    ensures
        char_views(lines@) == lines_spec(v@),
{
    let pieces = split_chars(v, '\n');
    proof {
        crate::text::lemma_split_on_nonempty(v@, '\n');
    }
    let count = if pieces[pieces.len() - 1].len() == 0 {
        pieces.len() - 1
    } else {
        pieces.len()
    };
    let mut lines: Vec<Vec<char>> = Vec::new();
    let mut i: usize = 0;
    while i < count
        invariant
            i <= count <= pieces@.len(),
            char_views(pieces@) == split_on(v@, '\n'),
            count == lines_spec(v@).len(),
            char_views(lines@) == lines_spec(v@).take(i as int),
        decreases count - i,
    {
        let piece = &pieces[i];
        let line = if i + 1 < pieces.len() && piece.len() > 0 && piece[piece.len() - 1] == '\r' {
            assert(has_suffix(piece@, seq!['\r'])) by {
                assert(piece@.skip(piece@.len() - 1) =~= seq!['\r']);
            }
            slice_chars(piece, 0, piece.len() - 1)
        } else {
            proof {
                if i + 1 < pieces@.len() && has_suffix(piece@, seq!['\r']) {
                    assert(piece@.skip(piece@.len() - 1)[0] == piece@[piece@.len() - 1]);
                }
            }
            slice_chars(piece, 0, piece.len())
        };
        assert(piece@.subrange(0, piece@.len() as int) =~= piece@);
        assert(piece@.subrange(0, piece@.len() - 1) =~= piece@.drop_last());
        assert(char_views(pieces@)[i as int] == piece@);
        let ghost prev = lines@;
        lines.push(line);
        i += 1;
        assert(char_views(lines@) =~= lines_spec(v@).take(i as int)) by {
            assert(char_views(lines@) =~= char_views(prev).push(line@));
        }
    }
    assert(lines_spec(v@).take(count as int) =~= lines_spec(v@));
    lines
}

/// The `url` of the `[remote "origin"]` section, scanning config lines from the front
/// with `in_origin` telling whether the lines are inside that section.
pub open spec fn origin_from_lines(lines: Seq<Seq<char>>, in_origin: bool) -> Option<Seq<char>>
    decreases lines.len(),
{
    if lines.len() == 0 {
        None
    } else {
        let t = trim(lines[0]);
        let rest = lines.drop_first();
        if t.len() == 0 || t[0] == '#' || t[0] == ';' {
            origin_from_lines(rest, in_origin)
        } else if t[0] == '[' && t.last() == ']' {
            origin_from_lines(rest, trim(t.subrange(1, t.len() - 1)) == "remote \"origin\""@)
        } else if !in_origin {
            origin_from_lines(rest, in_origin)
        } else {
            match split_once_spec(t, '=') {
                None => None,
                Some((key, value)) => if trim(key) == "url"@ && trim(value).len() > 0 {
                    Some(trim(value))
                } else {
                    origin_from_lines(rest, in_origin)
                },
            }
        }
    }
}

/// The `origin` remote URL of a git config text: the first non-empty `url` value inside a
/// `[remote "origin"]` section; none when a line of that section has no `=`.
pub open spec fn origin_url_spec(config: Seq<char>) -> Option<Seq<char>> {
    origin_from_lines(lines_spec(config), false)
}

/// Reads the `origin` remote URL out of a git config text.
pub fn parse_origin_url(config: &str) -> (r: Option<String>)
    ensures
        match (r, origin_url_spec(config@)) {
            (Some(x), Some(y)) => x@ == y,
            (None, None) => true,
            _ => false,
        },
{
    let chars = chars_of(config);
    let lines = text_lines(&chars);
    let section = chars_of("remote \"origin\"");
    let url_key = chars_of("url");
    let mut in_origin = false;
    let mut i: usize = 0;
    assert(lines_spec(config@).skip(0) =~= lines_spec(config@));
    while i < lines.len()
        invariant
            i <= lines@.len(),
            char_views(lines@) == lines_spec(config@),
            section@ == "remote \"origin\""@,
            url_key@ == "url"@,
            origin_url_spec(config@) == origin_from_lines(
                char_views(lines@).skip(i as int),
                in_origin,
            ),
        decreases lines@.len() - i,
    {
        let line = &lines[i];
        let ghost rest = char_views(lines@).skip(i + 1);
        assert(char_views(lines@).skip(i as int).drop_first() =~= rest);
        assert(char_views(lines@).skip(i as int)[0] == line@);
        let (a, b) = trim_range(line, 0, line.len());
        assert(line@.subrange(0, line@.len() as int) =~= line@);
        let t = slice_chars(line, a, b);
        if t.len() == 0 || t[0] == '#' || t[0] == ';' {
            i += 1;
            continue;
        }
        if t[0] == '[' && t[t.len() - 1] == ']' {
            let (c, d) = trim_range(&t, 1, t.len() - 1);
            let inner = slice_chars(&t, c, d);
            in_origin = chars_equal(&inner, &section);
            i += 1;
            continue;
        }
        if !in_origin {
            i += 1;
            continue;
        }
        match find_char(&t, '=') {
            None => {
                return None;
            },
            Some(eq) => {
                let (k0, k1) = trim_range(&t, 0, eq);
                let key = slice_chars(&t, k0, k1);
                let (v0, v1) = trim_range(&t, eq + 1, t.len());
                assert(t@.take(eq as int) =~= t@.subrange(0, eq as int));
                assert(t@.skip(eq + 1) =~= t@.subrange(eq + 1, t@.len() as int));
                if chars_equal(&key, &url_key) && v0 < v1 {
                    let value = slice_chars(&t, v0, v1);
                    return Some(string_from_chars(&value));
                }
            },
        }
        i += 1;
    }
    None
}

/// The first line of a text, trimmed, when that is not empty.
pub open spec fn first_line_trimmed(contents: Seq<char>) -> Option<Seq<char>> {
    let lines = lines_spec(contents);
    if lines.len() == 0 || trim(lines[0]).len() == 0 {
        None
    } else {
        Some(trim(lines[0]))
    }
}

fn first_line_trimmed_chars(contents: &str) -> (r: Option<Vec<char>>)
    ensures
        match (r, first_line_trimmed(contents@)) {
            (Some(x), Some(y)) => x@ == y,
            (None, None) => true,
            _ => false,
        },
{
    let chars = chars_of(contents);
    let lines = text_lines(&chars);
    if lines.len() == 0 {
        return None;
    }
    let line = &lines[0];
    assert(char_views(lines@)[0] == line@);
    let (a, b) = trim_range(line, 0, line.len());
    assert(line@.subrange(0, line@.len() as int) =~= line@);
    if a == b {
        return None;
    }
    Some(slice_chars(line, a, b))
}

/// The directory a `.git` indirection file points at: its first line, trimmed, after the
/// `gitdir:` prefix, trimmed again.
pub open spec fn git_dir_reference_spec(contents: Seq<char>) -> Option<Seq<char>> {
    let lines = lines_spec(contents);
    if lines.len() == 0 {
        None
    } else {
        match strip_prefix_spec(trim(lines[0]), "gitdir:"@) {
            None => None,
            Some(rest) => if trim(rest).len() == 0 {
                None
            } else {
                Some(trim(rest))
            },
        }
    }
}

/// Reads the target of a `.git` indirection file (`gitdir: <path>`).
pub fn parse_git_dir_reference(contents: &str) -> (r: Option<String>)
    ensures
        match (r, git_dir_reference_spec(contents@)) {
            (Some(x), Some(y)) => x@ == y,
            (None, None) => true,
            _ => false,
        },
{
    let chars = chars_of(contents);
    let lines = text_lines(&chars);
    if lines.len() == 0 {
        return None;
    }
    let line = &lines[0];
    assert(char_views(lines@)[0] == line@);
    let (a, b) = trim_range(line, 0, line.len());
    assert(line@.subrange(0, line@.len() as int) =~= line@);
    let t = slice_chars(line, a, b);
    let prefix = chars_of("gitdir:");
    match strip_prefix_chars(&t, &prefix) {
        None => None,
        Some(rest) => {
            let (c, d) = trim_range(&rest, 0, rest.len());
            assert(rest@.subrange(0, rest@.len() as int) =~= rest@);
            if c == d {
                None
            } else {
                let dir = slice_chars(&rest, c, d);
                Some(string_from_chars(&dir))
            }
        },
    }
}

/// Reads the shared git directory named by a worktree's `commondir` file.
pub fn parse_common_dir_reference(contents: &str) -> (r: Option<String>)
    ensures
        match (r, first_line_trimmed(contents@)) {
            (Some(x), Some(y)) => x@ == y,
            (None, None) => true,
            _ => false,
        },
{
    match first_line_trimmed_chars(contents) {
        Some(line) => Some(string_from_chars(&line)),
        None => None,
    }
}

/// A host and path joined as `host/path`: the host lower-cased and stripped of trailing
/// `/` and `:`, the path stripped of `/` at both ends; none when either ends up empty.
pub open spec fn host_and_path_spec(host: Seq<char>, path: Seq<char>) -> Option<Seq<char>> {
    let h = trim_end_char(trim_end_char(trim(host), '/'), ':');
    let p = trim_end_char(trim_start_char(trim(path), '/'), '/');
    if h.len() == 0 || p.len() == 0 {
        None
    } else {
        Some(ascii_lower(h) + seq!['/'] + p)
    }
}

/// `host:path` (the part after `git@` in an scp-like URL).
pub open spec fn scp_like_origin_spec(origin: Seq<char>) -> Option<Seq<char>> {
    match split_once_spec(origin, ':') {
        None => None,
        Some((host, path)) => host_and_path_spec(host, path),
    }
}

/// `[user@]host/path` (the part after the scheme of a URL).
pub open spec fn scheme_origin_spec(origin: Seq<char>) -> Option<Seq<char>> {
    let without_user = match rsplit_once_spec(origin, '@') {
        Some((_, rest)) => rest,
        None => origin,
    };
    match split_once_spec(without_user, '/') {
        None => None,
        Some((host, path)) => host_and_path_spec(host, path),
    }
}

/// The rest of the URL after `ssh://`, `https://` or `http://`, tried in that order.
pub open spec fn supported_scheme_rest(origin: Seq<char>) -> Option<Seq<char>> {
    if has_prefix(origin, "ssh://"@) {
        Some(origin.skip(6))
    } else if has_prefix(origin, "https://"@) {
        Some(origin.skip(8))
    } else if has_prefix(origin, "http://"@) {
        Some(origin.skip(7))
    } else {
        None
    }
}

/// `host/path` of an scp-like or ssh/http(s) URL, when it has both parts.
pub open spec fn git_transport_spec(origin: Seq<char>) -> Option<Seq<char>> {
    match strip_prefix_spec(origin, "git@"@) {
        Some(rest) => scp_like_origin_spec(rest),
        None => match supported_scheme_rest(origin) {
            Some(rest) => scheme_origin_spec(rest),
            None => None,
        },
    }
}

/// The URL trimmed of whitespace, then of trailing `/`, then of trailing `.git`.
pub open spec fn trimmed_origin_spec(origin: Seq<char>) -> Seq<char> {
    trim_end_text(trim_end_char(trim(origin), '/'), ".git"@)
}

/// The repository identity of an origin URL: `host/path` when the transport is
/// understood, else the trimmed URL itself.
pub open spec fn git_origin_identity(origin: Seq<char>) -> Seq<char> {
    let trimmed = trimmed_origin_spec(origin);
    match git_transport_spec(trimmed) {
        Some(identity) => identity,
        None => trimmed,
    }
}

fn normalize_host_and_path(host: &Vec<char>, path: &Vec<char>) -> (r: Option<Vec<char>>)
    ensures
        match (r, host_and_path_spec(host@, path@)) {
            (Some(x), Some(y)) => x@ == y,
            (None, None) => true,
            _ => false,
        },
{
    let (a, b) = trim_range(host, 0, host.len());
    assert(host@.subrange(0, host@.len() as int) =~= host@);
    let h0 = slice_chars(host, a, b);
    let h1 = trim_end_char_chars(&h0, '/');
    let h = trim_end_char_chars(&h1, ':');
    let (c, d) = trim_range(path, 0, path.len());
    assert(path@.subrange(0, path@.len() as int) =~= path@);
    let p0 = slice_chars(path, c, d);
    let p1 = trim_start_char_chars(&p0, '/');
    let p = trim_end_char_chars(&p1, '/');
    if h.len() == 0 || p.len() == 0 {
        return None;
    }
    let mut out = ascii_lower_chars(&h);
    out.push('/');
    crate::text::extend_chars(&mut out, &p);
    Some(out)
}

fn normalize_scp_like_origin(origin: &Vec<char>) -> (r: Option<Vec<char>>)
    ensures
        match (r, scp_like_origin_spec(origin@)) {
            (Some(x), Some(y)) => x@ == y,
            (None, None) => true,
            _ => false,
        },
{
    let n = origin.len();
    match find_char(origin, ':') {
        None => None,
        Some(i) => {
            let host = slice_chars(origin, 0, i);
            let path = slice_chars(origin, i + 1, n);
            assert(origin@.take(i as int) =~= host@);
            assert(origin@.skip(i + 1) =~= path@);
            normalize_host_and_path(&host, &path)
        },
    }
}

fn normalize_scheme_origin(origin: &Vec<char>) -> (r: Option<Vec<char>>)
    ensures
        match (r, scheme_origin_spec(origin@)) {
            (Some(x), Some(y)) => x@ == y,
            (None, None) => true,
            _ => false,
        },
{
    let n = origin.len();
    let without_user = match rfind_char(origin, '@') {
        Some(at) => {
            let rest = slice_chars(origin, at + 1, n);
            assert(origin@.skip(at + 1) =~= rest@);
            rest
        },
        None => slice_chars(origin, 0, origin.len()),
    };
    assert(origin@.subrange(0, origin@.len() as int) =~= origin@);
    match find_char(&without_user, '/') {
        None => None,
        Some(i) => {
            let m = without_user.len();
            let host = slice_chars(&without_user, 0, i);
            let path = slice_chars(&without_user, i + 1, m);
            assert(without_user@.take(i as int) =~= host@);
            assert(without_user@.skip(i + 1) =~= path@);
            normalize_host_and_path(&host, &path)
        },
    }
}

fn strip_supported_scheme(origin: &Vec<char>) -> (r: Option<Vec<char>>)
    ensures
        match (r, supported_scheme_rest(origin@)) {
            (Some(x), Some(y)) => x@ == y,
            (None, None) => true,
            _ => false,
        },
{
    let ssh = chars_of("ssh://");
    let https = chars_of("https://");
    let http = chars_of("http://");
    proof {
        reveal_strlit("ssh://");
        reveal_strlit("https://");
        reveal_strlit("http://");
    }
    if chars_have_prefix(origin, &ssh) {
        Some(slice_chars(origin, 6, origin.len()))
    } else if chars_have_prefix(origin, &https) {
        Some(slice_chars(origin, 8, origin.len()))
    } else if chars_have_prefix(origin, &http) {
        Some(slice_chars(origin, 7, origin.len()))
    } else {
        None
    }
}

fn normalize_git_transport(origin: &Vec<char>) -> (r: Option<Vec<char>>)
    ensures
        match (r, git_transport_spec(origin@)) {
            (Some(x), Some(y)) => x@ == y,
            (None, None) => true,
            _ => false,
        },
{
    let git_user = chars_of("git@");
    match strip_prefix_chars(origin, &git_user) {
        Some(rest) => normalize_scp_like_origin(&rest),
        None => match strip_supported_scheme(origin) {
            Some(rest) => normalize_scheme_origin(&rest),
            None => None,
        },
    }
}

fn trim_git_origin_suffixes(origin: &Vec<char>) -> (r: Vec<char>)
    ensures
        r@ == trimmed_origin_spec(origin@),
{
    let (a, b) = trim_range(origin, 0, origin.len());
    assert(origin@.subrange(0, origin@.len() as int) =~= origin@);
    let t = slice_chars(origin, a, b);
    let t1 = trim_end_char_chars(&t, '/');
    let suffix = chars_of(".git");
    trim_end_text_chars(&t1, &suffix)
}

/// Normalizes a git origin URL into a repository identity, so that https, ssh and
/// scp-like spellings of one remote agree.
pub fn normalize_git_origin(origin: &str) -> (r: String)
    ensures
        r@ == git_origin_identity(origin@),
{
    let chars = chars_of(origin);
    let trimmed = trim_git_origin_suffixes(&chars);
    match normalize_git_transport(&trimmed) {
        Some(identity) => string_from_chars(&identity),
        None => string_from_chars(&trimmed),
    }
}

/// A host as it appears in a remote URL: non-empty, with no whitespace, `/`, `:` or `@`.
pub open spec fn plain_host(h: Seq<char>) -> bool {
    &&& h.len() > 0
    &&& forall|i: int|
        0 <= i < h.len() ==> !is_space(#[trigger] h[i]) && h[i] != '/' && h[i] != ':' && h[i]
            != '@'
}

/// A repository path as it appears in a remote URL: non-empty, with no `@`, no whitespace
/// or `/` at either end, and not itself ending in `.git`.
pub open spec fn plain_remote_path(p: Seq<char>) -> bool {
    &&& p.len() > 0
    &&& !is_space(p[0]) && !is_space(p.last())
    &&& p[0] != '/' && p.last() != '/'
    &&& forall|i: int| 0 <= i < p.len() ==> #[trigger] p[i] != '@'
    &&& !has_suffix(p, ".git"@)
}

proof fn lemma_trim_plain(s: Seq<char>)
    requires
        s.len() > 0,
        !is_space(s[0]),
        !is_space(s.last()),
    ensures
        trim(s) == s,
{
    assert(trim_start(s) == s);
    assert(trim_end(s) == s);
}

proof fn lemma_first_index_absent(s: Seq<char>, c: char)
    requires
        forall|i: int| 0 <= i < s.len() ==> s[i] != c,
    ensures
        first_index(s, c) == -1,
    decreases s.len(),
{
    if s.len() > 0 {
        lemma_first_index_absent(s.drop_first(), c);
    }
}

proof fn lemma_last_index_absent(s: Seq<char>, c: char)
    requires
        forall|i: int| 0 <= i < s.len() ==> s[i] != c,
    ensures
        last_index(s, c) == -1,
    decreases s.len(),
{
    if s.len() > 0 {
        lemma_last_index_absent(s.drop_last(), c);
    }
}

proof fn lemma_first_index_at(a: Seq<char>, c: char, b: Seq<char>)
    requires
        forall|i: int| 0 <= i < a.len() ==> a[i] != c,
    ensures
        first_index(a + seq![c] + b, c) == a.len(),
    decreases a.len(),
{
    let s = a + seq![c] + b;
    if a.len() > 0 {
        assert(s.drop_first() =~= a.drop_first() + seq![c] + b);
        lemma_first_index_at(a.drop_first(), c, b);
    }
}

proof fn lemma_last_index_at(a: Seq<char>, c: char, b: Seq<char>)
    requires
        forall|i: int| 0 <= i < b.len() ==> b[i] != c,
    ensures
        last_index(a + seq![c] + b, c) == a.len(),
    decreases b.len(),
{
    let s = a + seq![c] + b;
    if b.len() > 0 {
        assert(s.drop_last() =~= a + seq![c] + b.drop_last());
        lemma_last_index_at(a, c, b.drop_last());
    } else {
        assert(s =~= a + seq![c]);
    }
}

proof fn lemma_host_and_path(h: Seq<char>, p: Seq<char>)
    requires
        plain_host(h),
        plain_remote_path(p),
    ensures
        host_and_path_spec(h, p) == Some(ascii_lower(h) + seq!['/'] + p),
{
    assert(!is_space(h[0]) && !is_space(h.last()));
    lemma_trim_plain(h);
    lemma_trim_plain(p);
    assert(trim_end_char(h, '/') == h);
    assert(trim_end_char(h, ':') == h);
    assert(trim_start_char(p, '/') == p);
    assert(trim_end_char(p, '/') == p);
}

/// `x` followed by `.git` loses exactly that suffix when an origin URL is trimmed.
proof fn lemma_trimmed_origin(x: Seq<char>)
    requires
        x.len() > 0,
        !is_space(x[0]),
        !has_suffix(x, ".git"@),
    ensures
        trimmed_origin_spec(x + ".git"@) == x,
{
    reveal_strlit(".git");
    let u = x + ".git"@;
    assert(u[0] == x[0]);
    assert(u.last() == 't');
    lemma_trim_plain(u);
    assert(trim_end_char(u, '/') == u);
    assert(u.skip(u.len() - 4) =~= ".git"@);
    assert(u.take(u.len() - 4) =~= x);
    assert(trim_end_text(x, ".git"@) == x);
}

/// Text ending in `/` followed by a path that does not end in `.git` does not either.
proof fn lemma_no_git_suffix(q: Seq<char>, p: Seq<char>)
    requires
        q.len() > 0,
        q.last() == '/',
        !has_suffix(p, ".git"@),
    ensures
        !has_suffix(q + p, ".git"@),
{
    reveal_strlit(".git");
    let x = q + p;
    if has_suffix(x, ".git"@) {
        if p.len() >= 4 {
            assert(x.skip(x.len() - 4) =~= p.skip(p.len() - 4));
        } else {
            let k = 3 - p.len();
            assert(x.skip(x.len() - 4)[k] == q.last());
            assert(".git"@[k] != '/');
        }
    }
}

/// The https, scp-like and ssh spellings of one remote give one repository identity: the
/// lower-cased host, a `/`, and the repository path.
pub proof fn lemma_git_spellings_agree(h: Seq<char>, p: Seq<char>)
    requires
        plain_host(h),
        plain_remote_path(p),
    ensures
        git_origin_identity("https://"@ + h + "/"@ + p + ".git"@) == ascii_lower(h) + "/"@ + p,
        git_origin_identity("git@"@ + h + ":"@ + p + ".git"@) == ascii_lower(h) + "/"@ + p,
        git_origin_identity("ssh://git@"@ + h + "/"@ + p + ".git"@) == ascii_lower(h) + "/"@ + p,
{
    reveal_strlit("https://");
    reveal_strlit("git@");
    reveal_strlit("ssh://git@");
    reveal_strlit("ssh://");
    reveal_strlit("http://");
    reveal_strlit("/");
    reveal_strlit(":");
    reveal_strlit(".git");
    lemma_host_and_path(h, p);
    let hp = h + seq!['/'] + p;
    assert(hp.take(h.len() as int) =~= h);
    assert(hp.skip(h.len() as int + 1) =~= p);
    lemma_first_index_at(h, '/', p);
    assert forall|i: int| 0 <= i < hp.len() implies hp[i] != '@' by {
        if i < h.len() {
            assert(hp[i] == h[i]);
        } else if i > h.len() {
            assert(hp[i] == p[i - h.len() - 1]);
        }
    }
    lemma_last_index_absent(hp, '@');
    assert(scheme_origin_spec(hp) == Some(ascii_lower(h) + seq!['/'] + p));

    // https://host/path.git
    let a = "https://"@ + h + "/"@ + p;
    assert(a =~= "https://"@ + hp);
    assert(a =~= ("https://"@ + h + "/"@) + p);
    lemma_no_git_suffix("https://"@ + h + "/"@, p);
    lemma_trimmed_origin(a);
    assert("https://"@ + h + "/"@ + p + ".git"@ =~= a + ".git"@);
    assert(a.take(4) != "git@"@) by {
        assert(a.take(4)[0] == 'h');
    }
    assert(a.take(6) != "ssh://"@) by {
        assert(a.take(6)[0] == 'h');
    }
    assert(a.take(8) =~= "https://"@);
    assert(a.skip(8) =~= hp);
    assert(ascii_lower(h) + seq!['/'] + p =~= ascii_lower(h) + "/"@ + p);

    // git@host:path.git
    let hc = h + seq![':'] + p;
    assert(hc.take(h.len() as int) =~= h);
    assert(hc.skip(h.len() as int + 1) =~= p);
    lemma_first_index_at(h, ':', p);
    let b = "git@"@ + h + ":"@ + p;
    assert(b =~= "git@"@ + hc);
    assert(b =~= ("git@"@ + h + ":"@) + p);
    assert(b.take(4) =~= "git@"@);
    assert(b.skip(4) =~= hc);
    assert(("git@"@ + h + ":"@).last() == ':');
    if has_suffix(b, ".git"@) {
        if p.len() >= 4 {
            assert(b.skip(b.len() - 4) =~= p.skip(p.len() - 4));
        } else {
            let k = 3 - p.len();
            assert(b.skip(b.len() - 4)[k] == ':');
        }
    }
    lemma_trimmed_origin(b);
    assert("git@"@ + h + ":"@ + p + ".git"@ =~= b + ".git"@);

    // ssh://git@host/path.git
    let c = "ssh://git@"@ + h + "/"@ + p;
    assert(c =~= ("ssh://git@"@ + h + "/"@) + p);
    lemma_no_git_suffix("ssh://git@"@ + h + "/"@, p);
    lemma_trimmed_origin(c);
    assert("ssh://git@"@ + h + "/"@ + p + ".git"@ =~= c + ".git"@);
    assert(c.take(4) != "git@"@) by {
        assert(c.take(4)[0] == 's');
    }
    assert(c.take(6) =~= "ssh://"@);
    let rest = c.skip(6);
    assert(rest =~= seq!['g', 'i', 't'] + seq!['@'] + hp);
    lemma_last_index_at(seq!['g', 'i', 't'], '@', hp);
    assert(rest.skip(4) =~= hp);
}

} // verus!
