//! Normalized repository-relative paths that always use `/` separators.

use vstd::prelude::*;
use vstd::string::*;

use crate::error::{GraphError, GraphErrorView};
use crate::text::{
    char_views, chars_of, join_chars, join_with, lemma_split_on_nonempty, push_char, split_chars,
    split_on, string_from_chars, string_from_range,
};

verus! {

/// The input with every backslash turned into a forward slash.
pub open spec fn forward_slashes(s: Seq<char>) -> Seq<char> {
    s.map_values(|c: char| if c == '\\' { '/' } else { c })
}

/// ASCII letters, the bytes `u8::is_ascii_alphabetic` accepts.
pub open spec fn is_ascii_letter(c: char) -> bool {
    ('a' <= c && c <= 'z') || ('A' <= c && c <= 'Z')
}

/// A Windows drive prefix such as `C:/` at the start of the text.
pub open spec fn has_drive_prefix(s: Seq<char>) -> bool {
    s.len() >= 3 && is_ascii_letter(s[0]) && s[1] == ':' && s[2] == '/'
}

/// Text that names an absolute location: a leading `/` or a drive prefix.
pub open spec fn looks_absolute(s: Seq<char>) -> bool {
    (s.len() > 0 && s[0] == '/') || has_drive_prefix(s)
}

/// The segment `..`.
pub open spec fn parent_segment() -> Seq<char> {
    seq!['.', '.']
}

/// The segment `.`.
pub open spec fn current_segment() -> Seq<char> {
    seq!['.']
}

/// The segments that name a directory level: neither empty nor `.`.
pub open spec fn kept_segments(parts: Seq<Seq<char>>) -> Seq<Seq<char>>
    decreases parts.len(),
{
    if parts.len() == 0 {
        Seq::<Seq<char>>::empty()
    } else {
        let rest = kept_segments(parts.drop_last());
        let last = parts.last();
        if last.len() == 0 || last == current_segment() {
            rest
        } else {
            rest.push(last)
        }
    }
}

/// The `/`-separated segments of the input after backslashes became slashes.
pub open spec fn raw_segments(s: Seq<char>) -> Seq<Seq<char>> {
    split_on(forward_slashes(s), '/')
}

/// Whether the input climbs out of the root through a `..` segment.
pub open spec fn escapes_root(s: Seq<char>) -> bool {
    raw_segments(s).contains(parent_segment())
}

/// The normalized form of an accepted input: its kept segments joined with `/`.
pub open spec fn normalized_text(s: Seq<char>) -> Seq<char> {
    join_with(kept_segments(raw_segments(s)), seq!['/'])
}

/// Index of the last `/` in the text, or -1 when there is none.
pub open spec fn last_slash(s: Seq<char>) -> int
    decreases s.len(),
{
    if s.len() == 0 {
        -1
    } else if s.last() == '/' {
        s.len() - 1
    } else {
        last_slash(s.drop_last())
    }
}

/// The parent of a normalized path text; `None` for the root (empty) text.
pub open spec fn parent_text(s: Seq<char>) -> Option<Seq<char>> {
    if s.len() == 0 {
        None
    } else if last_slash(s) < 0 {
        Some(Seq::<char>::empty())
    } else {
        Some(s.take(last_slash(s)))
    }
}

/// How a path reads in messages: `.` for the root, else the path itself.
pub open spec fn display_text(s: Seq<char>) -> Seq<char> {
    if s.len() == 0 {
        seq!['.']
    } else {
        s
    }
}

/// Reason given for absolute input.
pub open spec fn absolute_reason() -> &'static str {
    "path must be relative to the repository root"
}

/// Reason given for input that climbs out of the root.
pub open spec fn escape_reason() -> &'static str {
    "path must not escape the repository root"
}

/// What parsing the text gives: the normalized text, or the error it is refused with.
pub open spec fn relative_path_result(s: Seq<char>) -> Result<Seq<char>, GraphErrorView> {
    if looks_absolute(forward_slashes(s)) {
        Err(GraphErrorView::InvalidRelativePath { path: s, reason: absolute_reason()@ })
    } else if escapes_root(s) {
        Err(GraphErrorView::InvalidRelativePath { path: s, reason: escape_reason()@ })
    } else {
        Ok(normalized_text(s))
    }
}

/// A normalized repository-relative path that always uses `/` separators.
#[derive(Clone, Debug, PartialEq, Eq, PartialOrd, Ord, Hash)]
pub struct RelativePath(String);

impl View for RelativePath {
    type V = Seq<char>;

    closed spec fn view(&self) -> Seq<char> {
        self.0@
    }
}

pub(crate) proof fn lemma_last_slash_bounds(s: Seq<char>)
    ensures
        -1 <= last_slash(s) < s.len(),
        last_slash(s) >= 0 ==> s[last_slash(s)] == '/',
        forall|j: int| last_slash(s) < j < s.len() ==> s[j] != '/',
    decreases s.len(),
{
    if s.len() > 0 {
        lemma_last_slash_bounds(s.drop_last());
        if s.last() != '/' {
            assert forall|j: int| last_slash(s) < j < s.len() implies s[j] != '/' by {
                if j < s.len() - 1 {
                    assert(s.drop_last()[j] == s[j]);
                }
            }
        }
    }
}

/// Every piece `split_on` yields is free of the separator, and of any character the text
/// does not hold.
proof fn lemma_split_pieces_free(t: Seq<char>, sep: char, c: char)
    requires
        forall|i: int| 0 <= i < t.len() ==> t[i] != c,
    ensures
        forall|k: int, j: int|
            0 <= k < split_on(t, sep).len() && 0 <= j < split_on(t, sep)[k].len() ==> split_on(
                t,
                sep,
            )[k][j] != sep && split_on(t, sep)[k][j] != c,
    decreases t.len(),
{
    lemma_split_on_nonempty(t, sep);
    if t.len() > 0 {
        lemma_split_pieces_free(t.drop_last(), sep, c);
        lemma_split_on_nonempty(t.drop_last(), sep);
    }
}

/// Splitting `x`, a separator and a separator-free `y` gives the pieces of `x`, then `y`.
pub(crate) proof fn lemma_split_append(x: Seq<char>, sep: char, y: Seq<char>)
    requires
        forall|i: int| 0 <= i < y.len() ==> y[i] != sep,
    ensures
        split_on(x + seq![sep] + y, sep) == split_on(x, sep).push(y),
    decreases y.len(),
{
    let t = x + seq![sep] + y;
    if y.len() == 0 {
        assert(t.drop_last() =~= x);
        assert(y =~= Seq::<char>::empty());
        assert(t.last() == sep);
    } else {
        assert(t.drop_last() =~= x + seq![sep] + y.drop_last());
        lemma_split_append(x, sep, y.drop_last());
        assert(y[y.len() - 1] != sep);
        assert(t.last() == y.last());
        assert(y.drop_last().push(y.last()) =~= y);
        assert(split_on(x, sep).push(y.drop_last()).update(
            split_on(x, sep).len() as int,
            y.drop_last().push(y.last()),
        ) =~= split_on(x, sep).push(y));
    }
}

/// A separator-free text splits into itself.
proof fn lemma_split_single(y: Seq<char>, sep: char)
    requires
        forall|i: int| 0 <= i < y.len() ==> y[i] != sep,
    ensures
        split_on(y, sep) == seq![y],
    decreases y.len(),
{
    if y.len() > 0 {
        lemma_split_single(y.drop_last(), sep);
        assert(y[y.len() - 1] != sep);
        assert(y.drop_last().push(y.last()) =~= y);
        assert(seq![y.drop_last()].update(0, y.drop_last().push(y.last())) =~= seq![y]);
    } else {
        assert(y =~= Seq::<char>::empty());
    }
}

/// Joining separator-free pieces and splitting again gives the pieces back.
proof fn lemma_split_join(parts: Seq<Seq<char>>, sep: char)
    requires
        parts.len() > 0,
        forall|k: int, j: int| 0 <= k < parts.len() && 0 <= j < parts[k].len() ==> parts[k][j] != sep,
    ensures
        split_on(join_with(parts, seq![sep]), sep) == parts,
    decreases parts.len(),
{
    if parts.len() == 1 {
        lemma_split_single(parts[0], sep);
        assert(seq![parts[0]] =~= parts);
    } else {
        lemma_split_join(parts.drop_last(), sep);
        assert(forall|j: int| 0 <= j < parts.last().len() ==> parts.last()[j] != sep);
        lemma_split_append(join_with(parts.drop_last(), seq![sep]), sep, parts.last());
        assert(parts.drop_last().push(parts.last()) =~= parts);
    }
}

/// Every character of a join is a character of a piece or of the separator.
proof fn lemma_join_chars(parts: Seq<Seq<char>>, sep: Seq<char>, c: char)
    requires
        forall|k: int, j: int| 0 <= k < parts.len() && 0 <= j < parts[k].len() ==> parts[k][j] != c,
        forall|j: int| 0 <= j < sep.len() ==> sep[j] != c,
    ensures
        forall|i: int| 0 <= i < join_with(parts, sep).len() ==> join_with(parts, sep)[i] != c,
    decreases parts.len(),
{
    if parts.len() > 1 {
        lemma_join_chars(parts.drop_last(), sep, c);
        let a = join_with(parts.drop_last(), sep);
        let j = join_with(parts, sep);
        assert forall|i: int| 0 <= i < j.len() implies j[i] != c by {
            if i < a.len() {
                assert(j[i] == a[i]);
            } else if i < a.len() + sep.len() {
                assert(j[i] == sep[i - a.len()]);
            } else {
                assert(j[i] == parts.last()[i - a.len() - sep.len()]);
            }
        }
    } else if parts.len() == 1 {
        assert(forall|j: int| 0 <= j < parts[0].len() ==> parts[0][j] != c);
    }
}

/// A join starts with the first character of its first piece, when that piece has one.
proof fn lemma_join_first(parts: Seq<Seq<char>>, sep: Seq<char>)
    requires
        parts.len() > 0,
        parts[0].len() > 0,
    ensures
        join_with(parts, sep).len() > 0,
        join_with(parts, sep)[0] == parts[0][0],
    decreases parts.len(),
{
    if parts.len() > 1 {
        lemma_join_first(parts.drop_last(), sep);
    }
}

/// The kept segments are segments of the input, each non-empty and other than `.`.
proof fn lemma_kept_segments(parts: Seq<Seq<char>>)
    ensures
        forall|k: int|
            0 <= k < kept_segments(parts).len() ==> parts.contains(#[trigger] kept_segments(parts)[k])
                && kept_segments(parts)[k].len() > 0 && kept_segments(parts)[k] != current_segment(),
    decreases parts.len(),
{
    if parts.len() > 0 {
        lemma_kept_segments(parts.drop_last());
        let rest = kept_segments(parts.drop_last());
        assert forall|k: int| 0 <= k < kept_segments(parts).len() implies parts.contains(
            #[trigger] kept_segments(parts)[k],
        ) by {
            if k < rest.len() {
                let w = choose|w: int| 0 <= w < parts.drop_last().len() && parts.drop_last()[w] == rest[k];
                assert(parts[w] == rest[k]);
            } else {
                assert(parts[parts.len() - 1] == parts.last());
            }
        }
    }
}

/// Segments that are all non-empty and other than `.` are all kept.
proof fn lemma_kept_all(parts: Seq<Seq<char>>)
    requires
        forall|k: int| 0 <= k < parts.len() ==> (#[trigger] parts[k]).len() > 0 && parts[k] != current_segment(),
    ensures
        kept_segments(parts) == parts,
    decreases parts.len(),
{
    if parts.len() > 0 {
        lemma_kept_all(parts.drop_last());
        assert(parts.drop_last().push(parts.last()) =~= parts);
    }
}

/// Writing a path with `\` separators in place of `/` changes neither whether it is
/// accepted nor what it normalizes to.
pub proof fn lemma_separator_style_ignored(s: Seq<char>)
    ensures
        relative_path_result(s) is Ok <==> relative_path_result(forward_slashes(s)) is Ok,
        relative_path_result(s) is Ok ==> relative_path_result(s) == relative_path_result(
            forward_slashes(s),
        ),
{
    assert(forward_slashes(forward_slashes(s)) =~= forward_slashes(s));
}

/// The shape of every normalized path: no `\`, no leading `/`, and, unless it is the
/// root (empty), `/`-separated segments that are neither empty nor `.` nor `..`.
pub proof fn lemma_normalized_shape(s: Seq<char>)
    requires
        relative_path_result(s) is Ok,
    ensures
        forall|i: int| 0 <= i < normalized_text(s).len() ==> normalized_text(s)[i] != '\\',
        normalized_text(s).len() > 0 ==> normalized_text(s)[0] != '/',
        normalized_text(s).len() > 0 ==> forall|k: int|
            0 <= k < split_on(normalized_text(s), '/').len() ==> {
                let seg = #[trigger] split_on(normalized_text(s), '/')[k];
                seg.len() > 0 && seg != current_segment() && seg != parent_segment()
            },
{
    let t = forward_slashes(s);
    let raw = raw_segments(s);
    let kept = kept_segments(raw);
    let n = normalized_text(s);
    assert forall|i: int| 0 <= i < t.len() implies t[i] != '\\' by {}
    lemma_split_pieces_free(t, '/', '\\');
    lemma_kept_segments(raw);
    assert forall|k: int, j: int| 0 <= k < kept.len() && 0 <= j < kept[k].len() implies kept[k][j]
        != '/' && kept[k][j] != '\\' by {
        assert(raw.contains(kept[k]));
        let w = choose|w: int| 0 <= w < raw.len() && raw[w] == kept[k];
        assert(raw[w][j] == kept[k][j]);
    }
    lemma_join_chars(kept, seq!['/'], '\\');
    if n.len() > 0 {
        assert(kept.len() > 0) by {
            if kept.len() == 0 {
                assert(n =~= Seq::<char>::empty());
            }
        }
        assert(kept[0].len() > 0);
        lemma_join_first(kept, seq!['/']);
        lemma_split_join(kept, '/');
        assert forall|k: int| 0 <= k < kept.len() implies kept[k] != parent_segment() by {
            assert(raw.contains(kept[k]));
        }
    }
}

/// Normalizing an already normalized path changes nothing, unless the normalized text
/// reads as an absolute Windows path (a first segment such as `C:` that the input hid
/// behind a `.` segment).
pub proof fn lemma_normalization_idempotent(s: Seq<char>)
    requires
        relative_path_result(s) is Ok,
        !has_drive_prefix(normalized_text(s)),
    ensures
        relative_path_result(normalized_text(s)) == Ok::<Seq<char>, GraphErrorView>(
            normalized_text(s),
        ),
{
    let t = forward_slashes(s);
    let raw = raw_segments(s);
    let kept = kept_segments(raw);
    let n = normalized_text(s);
    assert forall|i: int| 0 <= i < t.len() implies t[i] != '\\' by {}
    lemma_split_pieces_free(t, '/', '\\');
    lemma_kept_segments(raw);
    assert forall|k: int, j: int| 0 <= k < kept.len() && 0 <= j < kept[k].len() implies kept[k][j]
        != '/' && kept[k][j] != '\\' by {
        assert(raw.contains(kept[k]));
        let w = choose|w: int| 0 <= w < raw.len() && raw[w] == kept[k];
        assert(raw[w][j] == kept[k][j]);
    }
    lemma_join_chars(kept, seq!['/'], '\\');
    assert(forward_slashes(n) =~= n);
    if kept.len() > 0 {
        assert(kept[0].len() > 0);
        lemma_join_first(kept, seq!['/']);
        assert(kept[0][0] != '/');
        lemma_split_join(kept, '/');
        assert(raw_segments(n) == kept);
        assert(!kept.contains(parent_segment())) by {
            if kept.contains(parent_segment()) {
                let k = choose|k: int| 0 <= k < kept.len() && kept[k] == parent_segment();
                assert(raw.contains(kept[k]));
            }
        }
        lemma_kept_all(kept);
    } else {
        assert(n =~= Seq::<char>::empty());
        assert(raw_segments(n) =~= seq![Seq::<char>::empty()]);
        assert(!raw_segments(n).contains(parent_segment())) by {
            if raw_segments(n).contains(parent_segment()) {
                let k = choose|k: int|
                    0 <= k < raw_segments(n).len() && raw_segments(n)[k] == parent_segment();
                assert(raw_segments(n)[k].len() == 0);
            }
        }
        assert(raw_segments(n).drop_last() =~= Seq::<Seq<char>>::empty());
        assert(kept_segments(Seq::<Seq<char>>::empty()) =~= Seq::<Seq<char>>::empty());
        assert(kept_segments(raw_segments(n)) =~= Seq::<Seq<char>>::empty());
    }
}

impl RelativePath {
    /// Returns the normalized repository root path.
    pub fn root() -> (p: Self)
        ensures
            p@ == Seq::<char>::empty(),
    {
        RelativePath(String::new())
    }

    /// Parses and normalizes a repository-relative path.
    pub fn new(path: &str) -> (r: Result<Self, GraphError>)
        ensures
            match (r, relative_path_result(path@)) {
                (Ok(p), Ok(t)) => p@ == t,
                (Err(e), Err(ev)) => e@ == ev,
                _ => false,
            },
    {
        path_new_impl(path)
    }

    /// Returns the underlying normalized path string.
    pub fn as_str(&self) -> (s: &str)
        ensures
            s@ == self@,
    {
        self.0.as_str()
    }

    /// A second path with the same text.
    pub fn duplicate(&self) -> (r: Self)
        ensures
            r == *self,
    {
        RelativePath(self.0.clone())
    }

    /// Returns whether the path refers to the repository root.
    pub fn is_root(&self) -> (b: bool)
        ensures
            b == (self@.len() == 0),
    {
        self.0.as_str().is_empty()
    }

    /// Returns whether two paths hold the same text.
    pub fn same_as(&self, other: &RelativePath) -> (b: bool)
        ensures
            b == (self@ == other@),
    {
        self.0 == other.0
    }

    /// Returns the normalized parent path, if one exists.
    pub fn parent(&self) -> (r: Option<Self>)
        ensures
            match (r, parent_text(self@)) {
                (Some(p), Some(t)) => p@ == t,
                (None, None) => true,
                _ => false,
            },
    {
        if self.is_root() {
            return None;
        }
        let chars = chars_of(self.0.as_str());
        let mut i = chars.len();
        proof {
            lemma_last_slash_bounds(self@);
        }
        assert(chars@.take(i as int) =~= chars@);
        while i > 0 && chars[i - 1] != '/'
            invariant
                i <= chars@.len(),
                chars@ == self@,
                last_slash(self@) == last_slash(chars@.take(i as int)),
            decreases i,
        {
            assert(chars@.take(i as int).drop_last() =~= chars@.take(i - 1));
            i -= 1;
        }
        if i == 0 {
            assert(chars@.take(0) =~= Seq::<char>::empty());
            Some(RelativePath::root())
        } else {
            assert(chars@.take(i as int).drop_last() =~= chars@.take(i - 1));
            Some(RelativePath(string_from_range(&chars, 0, i - 1)))
        }
    }

    /// Returns `.` for the root and the path text otherwise.
    pub fn to_string(&self) -> (s: String)
        ensures
            s@ == display_text(self@),
    {
        if self.is_root() {
            let mut s = String::new();
            push_char(&mut s, '.');
            assert(s@ =~= seq!['.']);
            s
        } else {
            self.0.clone()
        }
    }
}

/// Whether the text starts like an absolute path.
fn looks_like_absolute_path(chars: &Vec<char>) -> (b: bool)
    ensures
        b == looks_absolute(chars@),
{
    (chars.len() > 0 && chars[0] == '/') || has_windows_drive_prefix(chars)
}

fn has_windows_drive_prefix(chars: &Vec<char>) -> (b: bool)
    ensures
        b == has_drive_prefix(chars@),
{
    chars.len() >= 3 && (('a' <= chars[0] && chars[0] <= 'z') || ('A' <= chars[0] && chars[0]
        <= 'Z')) && chars[1] == ':' && chars[2] == '/'
}

fn path_new_impl(path: &str) -> (r: Result<RelativePath, GraphError>)
    ensures
        match r {
            Ok(p) => !looks_absolute(forward_slashes(path@)) && !escapes_root(path@) && p@
                == normalized_text(path@),
            Err(e) => e matches GraphError::InvalidRelativePath { path: shown, reason } && shown@
                == path@ && (looks_absolute(forward_slashes(path@)) && reason == absolute_reason()
                || !looks_absolute(forward_slashes(path@)) && escapes_root(path@) && reason
                == escape_reason()),
        },
{
    let raw = chars_of(path);
    let mut normalized: Vec<char> = Vec::new();
    let mut i: usize = 0;
    while i < raw.len()
        invariant
            i <= raw@.len(),
            raw@ == path@,
            normalized@ == forward_slashes(raw@.take(i as int)),
        decreases raw@.len() - i,
    {
        let c = raw[i];
        normalized.push(if c == '\\' { '/' } else { c });
        i += 1;
        assert(normalized@ =~= forward_slashes(raw@.take(i as int)));
    }
    assert(raw@.take(raw@.len() as int) =~= raw@);
    if looks_like_absolute_path(&normalized) {
        return Err(
            GraphError::InvalidRelativePath {
                path: path.to_owned(),
                reason: "path must be relative to the repository root",
            },
        );
    }
    assert(normalized@ == forward_slashes(path@));
    let pieces = split_chars(&normalized, '/');
    let mut kept: Vec<Vec<char>> = Vec::new();
    let mut k: usize = 0;
    while k < pieces.len()
        invariant
            k <= pieces@.len(),
            char_views(pieces@) == raw_segments(path@),
            normalized@ == forward_slashes(path@),
            !looks_absolute(normalized@),
            char_views(kept@) == kept_segments(char_views(pieces@).take(k as int)),
            forall|j: int| 0 <= j < k ==> pieces@[j]@ != parent_segment(),
        decreases pieces@.len() - k,
    {
        let piece = &pieces[k];
        assert(char_views(pieces@).take(k + 1).drop_last() =~= char_views(pieces@).take(
            k as int,
        ));
        if piece.len() == 2 && piece[0] == '.' && piece[1] == '.' {
            assert(piece@ =~= parent_segment());
            assert(char_views(pieces@)[k as int] == piece@);
            assert(raw_segments(path@)[k as int] == parent_segment());
            assert(normalized@ == forward_slashes(path@));
            return Err(
                GraphError::InvalidRelativePath {
                    path: path.to_owned(),
                    reason: "path must not escape the repository root",
                },
            );
        }
        assert(piece@ != parent_segment()) by {
            if piece@ == parent_segment() {
                assert(piece@.len() == 2 && piece@[0] == '.' && piece@[1] == '.');
            }
        }
        let is_current = piece.len() == 1 && piece[0] == '.';
        assert(is_current == (piece@ == current_segment())) by {
            if piece@ == current_segment() {
                assert(piece@[0] == '.');
            }
            if is_current {
                assert(piece@ =~= current_segment());
            }
        }
        if piece.len() != 0 && !is_current {
            let mut copy: Vec<char> = Vec::new();
            crate::text::extend_chars(&mut copy, piece);
            let ghost prev = kept@;
            kept.push(copy);
            assert(char_views(kept@) =~= char_views(prev).push(piece@));
        }
        k += 1;
    }
    assert(char_views(pieces@).take(pieces@.len() as int) =~= char_views(pieces@));
    assert(!escapes_root(path@)) by {
        if raw_segments(path@).contains(parent_segment()) {
            let j = choose|j: int|
                0 <= j < raw_segments(path@).len() && raw_segments(path@)[j] == parent_segment();
            assert(pieces@[j]@ == char_views(pieces@)[j]);
        }
    }
    let sep = vec!['/'];
    assert(sep@ =~= seq!['/']);
    let joined = join_chars(&kept, &sep);
    Ok(RelativePath(string_from_chars(&joined)))
}

} // verus!
