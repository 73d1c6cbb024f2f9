//! Rust `use` declarations: parsing their trees into `(alias, canonical target)` pairs.

use vstd::prelude::*;
use vstd::string::*;

use crate::text::{
    after_last_chars, after_last_text, char_views, chars_equal, chars_have_prefix, chars_of,
    extend_chars, has_prefix, join_chars, is_space, join_with, slice_chars, split_text,
    split_text_chars, string_from_chars, trim, trim_end_text, trim_end_text_chars, trim_range,
    trim_end, trim_start, without_spaces, without_spaces_chars,
};

verus! {

/// The text views of a list of strings.
pub open spec fn string_views(v: Seq<String>) -> Seq<Seq<char>> {
    v.map_values(|s: String| s@)
}

/// The `::` separator of Rust paths.
pub open spec fn path_sep() -> Seq<char> {
    seq![':', ':']
}

/// Brace scan for the first top-level `{ ... }` group, from position `i` with the current
/// nesting `depth` and the position `start` of the opening brace (-1 before one is seen).
pub open spec fn group_scan(t: Seq<char>, i: int, depth: nat, start: int) -> Option<(int, int)>
    decreases t.len() - i,
{
    if i < 0 || i >= t.len() {
        None
    } else if t[i] == '{' && depth == 0 {
        group_scan(t, i + 1, 1, i)
    } else if t[i] == '{' {
        group_scan(t, i + 1, depth + 1, start)
    } else if t[i] == '}' {
        let d: nat = if depth == 0 {
            0
        } else {
            (depth - 1) as nat
        };
        if d == 0 {
            if start >= 0 {
                Some((start, i))
            } else {
                None
            }
        } else {
            group_scan(t, i + 1, d, start)
        }
    } else {
        group_scan(t, i + 1, depth, start)
    }
}

/// A use tree split into its group prefix and the text inside its first top-level braces.
pub open spec fn use_group_spec(t: Seq<char>) -> Option<(Seq<char>, Seq<char>)> {
    match group_scan(t, 0, 0, -1) {
        Some((open, close)) => Some((t.take(open), t.subrange(open + 1, close))),
        None => None,
    }
}

/// Comma scan over a group's items, splitting at top-level delimiters and trimming each
/// part; `start` is where the current part began.
pub open spec fn top_level_scan(t: Seq<char>, delim: char, i: int, depth: nat, start: int) -> Seq<
    Seq<char>,
>
    decreases t.len() - i,
{
    if i < 0 || i >= t.len() || start < 0 || start > i {
        seq![trim(t.subrange(start, t.len() as int))]
    } else if t[i] == '{' {
        top_level_scan(t, delim, i + 1, depth + 1, start)
    } else if t[i] == '}' {
        top_level_scan(
            t,
            delim,
            i + 1,
            if depth == 0 {
                0
            } else {
                (depth - 1) as nat
            },
            start,
        )
    } else if t[i] == delim && depth == 0 {
        seq![trim(t.subrange(start, i))] + top_level_scan(t, delim, i + 1, depth, i + 1)
    } else {
        top_level_scan(t, delim, i + 1, depth, start)
    }
}

/// The top-level, trimmed parts of a text split at a delimiter outside braces.
pub open spec fn top_level_parts(t: Seq<char>, delim: char) -> Seq<Seq<char>> {
    top_level_scan(t, delim, 0, 0, 0)
}

/// Scan for the first ` as ` outside braces.
pub open spec fn alias_scan(t: Seq<char>, i: int, depth: nat) -> Option<int>
    decreases t.len() - i,
{
    if i < 0 || i >= t.len() {
        None
    } else if t[i] == '{' {
        alias_scan(t, i + 1, depth + 1)
    } else if t[i] == '}' {
        alias_scan(
            t,
            i + 1,
            if depth == 0 {
                0
            } else {
                (depth - 1) as nat
            },
        )
    } else if depth == 0 && has_prefix(t.skip(i), " as "@) {
        Some(i)
    } else {
        alias_scan(t, i + 1, depth)
    }
}

/// A use tree split into its path and its `as` alias, both trimmed.
pub open spec fn use_alias_spec(t: Seq<char>) -> (Seq<char>, Option<Seq<char>>) {
    match alias_scan(t, 0, 0) {
        Some(i) => (trim(t.take(i)), Some(trim(t.skip(i + 4)))),
        None => (trim(t), None),
    }
}

/// Scan for the `)` that closes a visibility group opened before position 0.
pub open spec fn paren_scan(t: Seq<char>, i: int, depth: nat) -> Option<int>
    decreases t.len() - i,
{
    if i < 0 || i >= t.len() {
        None
    } else if t[i] == '(' {
        paren_scan(t, i + 1, depth + 1)
    } else if t[i] == ')' {
        let d: nat = if depth == 0 {
            0
        } else {
            (depth - 1) as nat
        };
        if d == 0 {
            Some(i)
        } else {
            paren_scan(t, i + 1, d)
        }
    } else {
        paren_scan(t, i + 1, depth)
    }
}

/// A declaration without its leading `pub` or `pub(...)` visibility.
pub open spec fn strip_visibility_spec(t: Seq<char>) -> Seq<char> {
    if !has_prefix(t, "pub"@) {
        t
    } else {
        let rest = trim_start(t.skip(3));
        if rest.len() > 0 && rest[0] == '(' {
            match paren_scan(rest.drop_first(), 0, 1) {
                Some(i) => trim_start(rest.drop_first().skip(i + 1)),
                None => t,
            }
        } else {
            rest
        }
    }
}

/// Two path pieces joined with `::`, an empty side giving the other.
pub open spec fn join_use_prefix_spec(prefix: Seq<char>, suffix: Seq<char>) -> Seq<char> {
    if prefix.len() == 0 {
        suffix
    } else if suffix.len() == 0 {
        prefix
    } else {
        prefix + path_sep() + suffix
    }
}

/// The path part of a type spelling and its generic suffix from the first `<`, after
/// whitespace is removed; none for an empty spelling or one that starts with `<`.
pub open spec fn path_prefix_suffix_spec(path: Seq<char>) -> Option<(Seq<char>, Seq<char>)> {
    let compact = without_spaces(path);
    let i = crate::text::first_index(compact, '<');
    if compact.len() == 0 || i == 0 {
        None
    } else if i < 0 {
        Some((compact, Seq::<char>::empty()))
    } else {
        Some((compact.take(i), compact.skip(i)))
    }
}

/// Walk over leading `self`, `super` and `crate` segments from position `i` with the
/// current module `scope`; none when `super` climbs above the crate root.
pub open spec fn explicit_walk(segs: Seq<Seq<char>>, i: int, scope: Seq<Seq<char>>) -> Option<
    Seq<Seq<char>>,
>
    decreases segs.len() - i,
{
    if 0 <= i < segs.len() && segs[i] == "self"@ {
        explicit_walk(segs, i + 1, scope)
    } else if 0 <= i < segs.len() && segs[i] == "super"@ {
        if scope.len() == 0 {
            None
        } else {
            explicit_walk(segs, i + 1, scope.drop_last())
        }
    } else if 0 <= i < segs.len() && segs[i] == "crate"@ {
        Some(segs.skip(i + 1))
    } else {
        Some(scope + segs.skip(i))
    }
}

/// Crate-local segments of a path that starts with `self`, `super` or `crate`, resolved
/// against the module `namespace`; none for other paths.
pub open spec fn explicit_prefix_spec(segs: Seq<Seq<char>>, namespace: Seq<Seq<char>>) -> Option<
    Seq<Seq<char>>,
> {
    if segs.len() == 0 || !(segs[0] == "self"@ || segs[0] == "super"@ || segs[0] == "crate"@) {
        None
    } else {
        explicit_walk(segs, 0, namespace)
    }
}

/// The segments `self`, `super` and `crate` that start an explicit local path.
pub open spec fn is_path_keyword(segment: Seq<char>) -> bool {
    segment == "self"@ || segment == "super"@ || segment == "crate"@
}

/// Equivalent spellings of one local path resolve to the same crate-local segments:
/// `self::rest` in module `namespace` and `crate::namespace::rest` both give
/// `namespace::rest`, and `super::rest` in a child module of `namespace` gives the same.
pub proof fn lemma_local_spellings_agree(
    namespace: Seq<Seq<char>>,
    child: Seq<char>,
    rest: Seq<Seq<char>>,
)
    requires
        rest.len() > 0 ==> !is_path_keyword(rest[0]),
    ensures
        explicit_prefix_spec(seq!["self"@] + rest, namespace) == Some(namespace + rest),
        explicit_prefix_spec(seq!["crate"@] + namespace + rest, namespace) == Some(namespace + rest),
        explicit_prefix_spec(seq!["super"@] + rest, namespace.push(child)) == Some(namespace + rest),
{
    reveal_strlit("self");
    reveal_strlit("super");
    reveal_strlit("crate");
    let a = seq!["self"@] + rest;
    assert(a[0] == "self"@);
    assert(a.skip(1) =~= rest);
    if rest.len() > 0 {
        assert(a[1] == rest[0]);
    }
    assert(explicit_walk(a, 1, namespace) == Some(namespace + rest));
    let b = seq!["crate"@] + namespace + rest;
    assert(b[0] == "crate"@);
    assert("crate"@ != "self"@ && "crate"@ != "super"@) by {
        assert("crate"@[0] != "self"@[0]);
        assert("crate"@[0] != "super"@[0]);
    }
    assert(b.skip(1) =~= namespace + rest);
    let c = seq!["super"@] + rest;
    assert(c[0] == "super"@);
    assert("super"@ != "self"@) by {
        assert("super"@[1] != "self"@[1]);
    }
    assert(c.skip(1) =~= rest);
    if rest.len() > 0 {
        assert(c[1] == rest[0]);
    }
    assert(namespace.push(child).drop_last() =~= namespace);
    assert(explicit_walk(c, 1, namespace) == Some(namespace + rest));
}

/// The walk over `n` leading `super` segments from position `i` climbs one module for
/// each `super` still ahead.
proof fn lemma_walk_supers(n: nat, rest: Seq<Seq<char>>, i: int, scope: Seq<Seq<char>>)
    requires
        0 <= i <= n,
        rest.len() > 0 ==> !is_path_keyword(rest[0]),
    ensures
        explicit_walk(Seq::new(n, |k: int| "super"@) + rest, i, scope) == if scope.len() >= n - i {
            Some(scope.take(scope.len() - (n - i)) + rest)
        } else {
            None
        },
    decreases n - i,
{
    reveal_strlit("self");
    reveal_strlit("super");
    reveal_strlit("crate");
    let segs = Seq::new(n, |k: int| "super"@) + rest;
    assert("super"@ != "self"@) by {
        assert("super"@[1] != "self"@[1]);
    }
    if i == n {
        assert(segs.skip(i) =~= rest);
        assert(scope.take(scope.len() as int) =~= scope);
        if rest.len() > 0 {
            assert(segs[i] == rest[0]);
        }
    } else {
        assert(segs[i] == "super"@);
        if scope.len() > 0 {
            lemma_walk_supers(n, rest, i + 1, scope.drop_last());
            if scope.len() >= n - i {
                assert(scope.drop_last().take(scope.len() - 1 - (n - i - 1)) =~= scope.take(
                    scope.len() - (n - i),
                ));
            }
        }
    }
}

/// `n` leading `super` segments climb `n` modules: from a module at least `n` deep,
/// `super::…::super::rest` names `rest` in the module `n` levels up; from a shallower
/// module it climbs above the crate root and resolves to nothing.
pub proof fn lemma_supers_climb(namespace: Seq<Seq<char>>, n: nat, rest: Seq<Seq<char>>)
    requires
        n >= 1,
        rest.len() > 0 ==> !is_path_keyword(rest[0]),
    ensures
        n <= namespace.len() ==> explicit_prefix_spec(Seq::new(n, |k: int| "super"@) + rest, namespace)
            == Some(namespace.take(namespace.len() - n) + rest),
        n > namespace.len() ==> explicit_prefix_spec(Seq::new(n, |k: int| "super"@) + rest, namespace)
            is None,
{
    let segs = Seq::new(n, |k: int| "super"@) + rest;
    assert(segs[0] == "super"@);
    lemma_walk_supers(n, rest, 0, namespace);
}

/// The canonical crate-local target of a `use` path written in the module `namespace`.
pub open spec fn canonical_use_target(path: Seq<char>, namespace: Seq<Seq<char>>) -> Seq<char> {
    let compact = without_spaces(path);
    match path_prefix_suffix_spec(path) {
        None => compact,
        Some((prefix, _)) => match explicit_prefix_spec(split_text(prefix, path_sep()), namespace) {
            Some(segs) => join_with(segs, path_sep()),
            None => if compact == "self"@ {
                join_with(namespace, path_sep())
            } else {
                prefix
            },
        },
    }
}

/// The `(alias, target)` pairs of the items `parts` of a group, each expanded under the
/// path `next`, in order; `bound` is the length of the enclosing tree, which every item is
/// shorter than.
pub open spec fn expand_parts(
    next: Seq<char>,
    parts: Seq<Seq<char>>,
    namespace: Seq<Seq<char>>,
    bound: nat,
) -> Seq<(Seq<char>, Seq<char>)>
    decreases bound, 0nat, parts.len(),
{
    if parts.len() == 0 {
        Seq::empty()
    } else {
        expand_parts(next, parts.drop_last(), namespace, bound) + if parts.last().len() < bound {
            expand_use_spec(next, parts.last(), namespace)
        } else {
            Seq::empty()
        }
    }
}

/// The `(alias, target)` pairs of a use tree under a path `prefix`, written in the module
/// `namespace`: a group expands each of its items under the group prefix; a leaf gives
/// its `as` alias (or last path segment) and its canonical target, unless that is empty.
pub open spec fn expand_use_spec(prefix: Seq<char>, tree: Seq<char>, namespace: Seq<Seq<char>>) -> Seq<
    (Seq<char>, Seq<char>),
>
    decreases tree.len(), 1nat, 0nat,
{
    let t = trim(tree);
    if t.len() == 0 {
        Seq::empty()
    } else {
        match use_group_spec(t) {
            Some((group_prefix, items)) => {
                let next = join_use_prefix_spec(prefix, trim_end_text(group_prefix, path_sep()));
                expand_parts(next, top_level_parts(items, ','), namespace, tree.len())
            },
            None => {
                let (path, alias_override) = use_alias_spec(t);
                let full = if path == "self"@ {
                    prefix
                } else {
                    join_use_prefix_spec(prefix, path)
                };
                let target = canonical_use_target(full, namespace);
                if target.len() == 0 {
                    Seq::empty()
                } else {
                    let alias = match alias_override {
                        Some(a) => a,
                        None => if path == "self"@ {
                            after_last_text(target, path_sep())
                        } else {
                            after_last_text(path, path_sep())
                        },
                    };
                    seq![(alias, target)]
                }
            },
        }
    }
}

/// The use tree of a declaration: visibility, the `use` keyword and the final `;` dropped.
pub open spec fn use_body_spec(text: Seq<char>) -> Seq<char> {
    let d0 = strip_visibility_spec(trim(text));
    let d1 = trim(
        match crate::text::strip_prefix_spec(d0, "use"@) {
            Some(rest) => rest,
            None => d0,
        },
    );
    trim(
        match crate::text::strip_suffix_spec(d1, seq![';']) {
            Some(rest) => rest,
            None => d1,
        },
    )
}

/// The `(alias, target)` pairs a whole `use` declaration brings into the module
/// `namespace`.
pub open spec fn use_declaration_spec(text: Seq<char>, namespace: Seq<Seq<char>>) -> Seq<
    (Seq<char>, Seq<char>),
> {
    expand_use_spec(Seq::empty(), use_body_spec(text), namespace)
}

/// A `pub` or `pub(crate)` visibility in front of a `use` declaration changes nothing it
/// brings into scope.
pub proof fn lemma_use_visibility_ignored(t: Seq<char>, namespace: Seq<Seq<char>>)
    requires
        t.len() > 0,
        !is_space(t[0]),
        !is_space(t.last()),
        t[0] != '(',
        !has_prefix(t, "pub"@),
    ensures
        use_declaration_spec("pub "@ + t, namespace) == use_declaration_spec(t, namespace),
        use_declaration_spec("pub(crate) "@ + t, namespace) == use_declaration_spec(t, namespace),
{
    reveal_strlit("pub ");
    reveal_strlit("pub(crate) ");
    reveal_strlit("pub");
    assert(trim_start(t) == t);
    assert(trim_end(t) == t);
    assert(trim(t) == t);

    let a = "pub "@ + t;
    assert(a[0] == 'p');
    assert(a.last() == t.last());
    assert(trim_start(a) == a);
    assert(trim_end(a) == a);
    assert(a.take(3) =~= "pub"@);
    assert(a.skip(3) =~= seq![' '] + t);
    assert((seq![' '] + t).drop_first() =~= t);
    assert(trim_start(seq![' '] + t) == trim_start(t));
    assert(strip_visibility_spec(a) == t);

    let b = "pub(crate) "@ + t;
    assert(b[0] == 'p');
    assert(b.last() == t.last());
    assert(trim_start(b) == b);
    assert(trim_end(b) == b);
    assert(b.take(3) =~= "pub"@);
    let rest = b.skip(3);
    assert(rest =~= seq!['(', 'c', 'r', 'a', 't', 'e', ')', ' '] + t);
    assert(trim_start(rest) == rest);
    let inner = rest.drop_first();
    assert(inner =~= seq!['c', 'r', 'a', 't', 'e', ')', ' '] + t);
    assert(paren_scan(inner, 5, 1) == Some(5int));
    assert(paren_scan(inner, 4, 1) == Some(5int));
    assert(paren_scan(inner, 3, 1) == Some(5int));
    assert(paren_scan(inner, 2, 1) == Some(5int));
    assert(paren_scan(inner, 1, 1) == Some(5int));
    assert(paren_scan(inner, 0, 1) == Some(5int));
    assert(inner.skip(6) =~= seq![' '] + t);
    assert(strip_visibility_spec(b) == t);
}

/// A character that can stand in a plain path or name of a `use` tree: no whitespace
/// and no brace.
pub open spec fn plain_use_char(c: char) -> bool {
    !is_space(c) && c != '{' && c != '}'
}

/// A text with no brace has no brace group.
proof fn lemma_no_group_without_braces(t: Seq<char>, i: int, depth: nat, start: int)
    requires
        forall|k: int| 0 <= k < t.len() ==> t[k] != '{' && t[k] != '}',
    ensures
        group_scan(t, i, depth, start) is None,
    decreases t.len() - i,
{
    if 0 <= i < t.len() {
        lemma_no_group_without_braces(t, i + 1, depth, start);
    }
}

/// The alias scan passes over plain characters without stopping.
proof fn lemma_alias_scan_passes(t: Seq<char>, i: int, n: int)
    requires
        0 <= i <= n <= t.len(),
        forall|k: int| i <= k < n ==> plain_use_char(#[trigger] t[k]),
    ensures
        alias_scan(t, i, 0) == alias_scan(t, n, 0),
    decreases n - i,
{
    reveal_strlit(" as ");
    if i < n {
        assert(plain_use_char(t[i]));
        assert(is_space(' '));
        assert(!has_prefix(t.skip(i), " as "@)) by {
            if has_prefix(t.skip(i), " as "@) {
                assert(t.skip(i).take(4)[0] == t[i]);
            }
        }
        lemma_alias_scan_passes(t, i + 1, n);
    }
}

/// An `as` alias on a leaf `use` tree changes only the name it binds, never its target:
/// `path as alias` brings in what `path` brings in, under the name `alias`.
pub proof fn lemma_use_alias_keeps_target(
    prefix: Seq<char>,
    path: Seq<char>,
    alias: Seq<char>,
    namespace: Seq<Seq<char>>,
)
    requires
        path.len() > 0,
        alias.len() > 0,
        forall|k: int| 0 <= k < path.len() ==> plain_use_char(#[trigger] path[k]),
        forall|k: int| 0 <= k < alias.len() ==> plain_use_char(#[trigger] alias[k]),
    ensures
        expand_use_spec(prefix, path + " as "@ + alias, namespace).len() == expand_use_spec(
            prefix,
            path,
            namespace,
        ).len(),
        expand_use_spec(prefix, path, namespace).len() == 1 ==> expand_use_spec(
            prefix,
            path + " as "@ + alias,
            namespace,
        )[0] == (alias, expand_use_spec(prefix, path, namespace)[0].1),
{
    reveal_strlit(" as ");
    let t = path + " as "@ + alias;
    assert(path[0] == t[0]);
    assert(t.last() == alias.last());
    assert(plain_use_char(path[0]));
    assert(plain_use_char(path.last()));
    assert(plain_use_char(alias[0]));
    assert(plain_use_char(alias.last()));
    assert(trim_start(path) == path);
    assert(trim_end(path) == path);
    assert(trim_start(alias) == alias);
    assert(trim_end(alias) == alias);
    assert(trim_start(t) == t);
    assert(trim_end(t) == t);
    assert(trim(t) == t);
    assert(trim(path) == path);
    assert(trim(alias) == alias);
    assert forall|k: int| 0 <= k < t.len() implies t[k] != '{' && t[k] != '}' by {
        if k < path.len() {
            assert(t[k] == path[k]);
        } else if k >= path.len() + 4 {
            assert(t[k] == alias[k - path.len() - 4]);
        }
    }
    lemma_no_group_without_braces(t, 0, 0, -1);
    lemma_no_group_without_braces(path, 0, 0, -1);
    assert forall|k: int| 0 <= k < path.len() implies plain_use_char(#[trigger] t[k]) by {
        assert(t[k] == path[k]);
    }
    lemma_alias_scan_passes(t, 0, path.len() as int);
    let n = path.len() as int;
    assert(t.skip(n).take(4) =~= " as "@);
    assert(alias_scan(t, n, 0) == Some(n));
    assert(t.take(n) =~= path);
    assert(t.skip(n + 4) =~= alias);
    assert(use_alias_spec(t) == (path, Some(alias)));
    lemma_alias_scan_passes(path, 0, n);
    assert(use_alias_spec(path) == (path, None::<Seq<char>>));
}

/// The brace scan passes over characters that are no braces without change.
proof fn lemma_group_scan_skip(t: Seq<char>, i: int, j: int, depth: nat, start: int)
    requires
        0 <= i <= j <= t.len(),
        forall|k: int| i <= k < j ==> t[k] != '{' && t[k] != '}',
    ensures
        group_scan(t, i, depth, start) == group_scan(t, j, depth, start),
    decreases j - i,
{
    if i < j {
        lemma_group_scan_skip(t, i + 1, j, depth, start);
    }
}

/// The delimiter scan passes over characters that are neither braces nor the delimiter.
proof fn lemma_top_scan_skip(t: Seq<char>, delim: char, i: int, j: int, depth: nat, start: int)
    requires
        0 <= start <= i <= j <= t.len(),
        forall|k: int| i <= k < j ==> t[k] != '{' && t[k] != '}' && t[k] != delim,
    ensures
        top_level_scan(t, delim, i, depth, start) == top_level_scan(t, delim, j, depth, start),
    decreases j - i,
{
    if i < j {
        lemma_top_scan_skip(t, delim, i + 1, j, depth, start);
    }
}

/// The backward search passes over positions where the text does not occur.
proof fn lemma_rfind_skip(s: Seq<char>, p: Seq<char>, i: int, j: int)
    requires
        j <= i,
        forall|k: int| j < k <= i ==> !crate::text::occurs_at(s, p, k),
    ensures
        crate::text::rfind_text_from(s, p, i) == crate::text::rfind_text_from(s, p, j),
    decreases i - j,
{
    if i > j && i >= 0 {
        lemma_rfind_skip(s, p, i - 1, j);
    }
}

/// A path segment of a `use` tree: plain characters, and no `,` or `:`.
pub open spec fn plain_use_segment(x: Seq<char>) -> bool {
    &&& x.len() > 0
    &&& forall|k: int| 0 <= k < x.len() ==> plain_use_char(#[trigger] x[k]) && x[k] != ',' && x[k] != ':'
}

/// A leaf `name` under the group prefix `p` brings in what the path `p::name` does.
proof fn lemma_group_leaf(
    prefix: Seq<char>,
    p: Seq<char>,
    x: Seq<char>,
    namespace: Seq<Seq<char>>,
)
    requires
        p.len() > 0,
        forall|k: int| 0 <= k < p.len() ==> plain_use_char(#[trigger] p[k]),
        plain_use_segment(x),
        x != "self"@,
    ensures
        expand_use_spec(join_use_prefix_spec(prefix, p), x, namespace) == expand_use_spec(
            prefix,
            p + path_sep() + x,
            namespace,
        ),
{
    let s = p + path_sep() + x;
    let n = p.len() as int;
    assert(s[0] == p[0]);
    assert(s.last() == x.last());
    assert(plain_use_char(p[0]));
    assert(plain_use_char(x[0]));
    assert(plain_use_char(x.last()));
    assert(trim_start(x) == x);
    assert(trim_end(x) == x);
    assert(trim(x) == x);
    assert(trim_start(s) == s);
    assert(trim_end(s) == s);
    assert(trim(s) == s);
    assert forall|k: int| 0 <= k < s.len() implies plain_use_char(#[trigger] s[k]) by {
        if k < n {
            assert(s[k] == p[k]);
        } else if k >= n + 2 {
            assert(s[k] == x[k - n - 2]);
        }
    }
    assert forall|k: int| 0 <= k < x.len() implies plain_use_char(#[trigger] x[k]) by {}
    lemma_no_group_without_braces(s, 0, 0, -1);
    lemma_no_group_without_braces(x, 0, 0, -1);
    lemma_alias_scan_passes(s, 0, s.len() as int);
    lemma_alias_scan_passes(x, 0, x.len() as int);
    assert(use_alias_spec(s) == (s, None::<Seq<char>>));
    assert(use_alias_spec(x) == (x, None::<Seq<char>>));
    reveal_strlit("self");
    assert(s != "self"@) by {
        if s == "self"@ {
            assert(s[n] == ':');
        }
    }
    let full = join_use_prefix_spec(join_use_prefix_spec(prefix, p), x);
    assert(full =~= join_use_prefix_spec(prefix, s));
    lemma_rfind_skip(x, path_sep(), x.len() - 2, -1);
    assert forall|k: int| -1 < k <= x.len() - 2 implies !crate::text::occurs_at(x, path_sep(), k) by {
        if crate::text::occurs_at(x, path_sep(), k) {
            assert(x.subrange(k, k + 2)[0] == x[k]);
        }
    }
    assert(after_last_text(x, path_sep()) == x);
    assert forall|k: int| n < k <= s.len() - 2 implies !crate::text::occurs_at(s, path_sep(), k) by {
        if crate::text::occurs_at(s, path_sep(), k) {
            assert(s.subrange(k, k + 2)[1] == s[k + 1]);
            assert(s[k + 1] == x[k + 1 - n - 2]);
        }
    }
    lemma_rfind_skip(s, path_sep(), s.len() - 2, n);
    assert(s.subrange(n, n + 2) =~= path_sep());
    assert(s.skip(n + 2) =~= x);
    assert(after_last_text(s, path_sep()) == x);
}

/// The group `p::{x, y}` is its own trimmed text, with group prefix `p::`, prefix path
/// `p` and items `x, y`.
proof fn lemma_group_shape(p: Seq<char>, x: Seq<char>, y: Seq<char>)
    requires
        p.len() > 0,
        forall|k: int| 0 <= k < p.len() ==> plain_use_char(#[trigger] p[k]),
        p.last() != ':',
        plain_use_segment(x),
        plain_use_segment(y),
    ensures
        trim(p + seq![':', ':', '{'] + (x + seq![',', ' '] + y) + seq!['}']) == p + seq![
            ':',
            ':',
            '{',
        ] + (x + seq![',', ' '] + y) + seq!['}'],
        use_group_spec(p + seq![':', ':', '{'] + (x + seq![',', ' '] + y) + seq!['}']) == Some(
            (p + path_sep(), x + seq![',', ' '] + y),
        ),
        trim_end_text(p + path_sep(), path_sep()) == p,
{
    let items = x + seq![',', ' '] + y;
    let t = p + seq![':', ':', '{'] + items + seq!['}'];
    let n = p.len() as int;
    let close = t.len() - 1;
    assert(t[0] == p[0]);
    assert(plain_use_char(p[0]));
    assert(t.last() == '}');
    assert(trim_start(t) == t);
    assert(trim_end(t) == t);
    assert(t[n + 2] == '{');
    assert(t[close] == '}');
    assert forall|k: int| 0 <= k < n + 2 implies t[k] != '{' && t[k] != '}' by {
        if k < n {
            assert(t[k] == p[k]);
            assert(plain_use_char(p[k]));
        }
    }
    lemma_group_scan_skip(t, 0, n + 2, 0, -1);
    assert forall|k: int| n + 3 <= k < close implies t[k] != '{' && t[k] != '}' by {
        assert(t[k] == items[k - n - 3]);
        if k - n - 3 < x.len() {
            assert(items[k - n - 3] == x[k - n - 3]);
            assert(plain_use_char(x[k - n - 3]));
        } else if k - n - 3 >= x.len() + 2 {
            assert(items[k - n - 3] == y[k - n - 3 - x.len() - 2]);
            assert(plain_use_char(y[k - n - 3 - x.len() - 2]));
        }
    }
    lemma_group_scan_skip(t, n + 3, close, 1, n + 2);
    assert(group_scan(t, 0, 0, -1) == Some((n + 2, close)));
    assert(t.take(n + 2) =~= p + path_sep());
    assert(t.subrange(n + 3, close) =~= items);
    assert(trim_end_text(p, path_sep()) == p) by {
        if crate::text::has_suffix(p, path_sep()) {
            assert(p.skip(p.len() - 2)[1] == p.last());
        }
    }
    assert((p + path_sep()).take((p + path_sep()).len() - 2) =~= p);
    assert((p + path_sep()).skip((p + path_sep()).len() - 2) =~= path_sep());
}

/// The items `x, y` split at their comma into `x` and `y`.
proof fn lemma_two_parts(x: Seq<char>, y: Seq<char>)
    requires
        plain_use_segment(x),
        plain_use_segment(y),
    ensures
        top_level_parts(x + seq![',', ' '] + y, ',') == seq![x, y],
{
    let items = x + seq![',', ' '] + y;
    let xl = x.len() as int;
    assert forall|k: int| 0 <= k < xl implies items[k] != '{' && items[k] != '}' && items[k]
        != ',' by {
        assert(items[k] == x[k]);
        assert(plain_use_char(x[k]));
    }
    lemma_top_scan_skip(items, ',', 0, xl, 0, 0);
    assert(items[xl] == ',');
    assert forall|k: int| xl + 1 <= k < items.len() implies items[k] != '{' && items[k] != '}'
        && items[k] != ',' by {
        if k > xl + 1 {
            assert(items[k] == y[k - xl - 2]);
            assert(plain_use_char(y[k - xl - 2]));
        }
    }
    lemma_top_scan_skip(items, ',', xl + 1, items.len() as int, 0, xl + 1);
    assert(items.subrange(0, xl) =~= x);
    let rest = items.subrange(xl + 1, items.len() as int);
    assert(rest =~= seq![' '] + y);
    assert(plain_use_char(x[0]) && plain_use_char(x.last()));
    assert(plain_use_char(y[0]) && plain_use_char(y.last()));
    assert(trim_start(x) == x && trim_end(x) == x);
    assert(trim_start(y) == y && trim_end(y) == y);
    assert(is_space(' '));
    assert(rest.drop_first() =~= y);
    assert(trim_start(rest) == y);
    assert(top_level_parts(items, ',') =~= seq![x, y]);
}

/// A group of two leaves brings in what the two paths written out in full bring in, in
/// order: `p::{x, y}` is `p::x` followed by `p::y`.
pub proof fn lemma_use_group_splits(
    prefix: Seq<char>,
    p: Seq<char>,
    x: Seq<char>,
    y: Seq<char>,
    namespace: Seq<Seq<char>>,
)
    requires
        p.len() > 0,
        forall|k: int| 0 <= k < p.len() ==> plain_use_char(#[trigger] p[k]),
        p.last() != ':',
        plain_use_segment(x),
        plain_use_segment(y),
        x != "self"@,
        y != "self"@,
    ensures
        expand_use_spec(prefix, p + seq![':', ':', '{'] + (x + seq![',', ' '] + y) + seq!['}'], namespace)
            == expand_use_spec(prefix, p + path_sep() + x, namespace) + expand_use_spec(
            prefix,
            p + path_sep() + y,
            namespace,
        ),
{
    let items = x + seq![',', ' '] + y;
    let t = p + seq![':', ':', '{'] + items + seq!['}'];
    lemma_group_shape(p, x, y);
    lemma_two_parts(x, y);
    let next = join_use_prefix_spec(prefix, p);
    let parts = seq![x, y];
    assert(t.len() > 0);
    assert(x.len() < t.len() && y.len() < t.len());
    assert(expand_use_spec(prefix, t, namespace) == expand_parts(next, parts, namespace, t.len()));
    assert(parts.drop_last() =~= seq![x]);
    assert(seq![x].drop_last() =~= Seq::<Seq<char>>::empty());
    let none = expand_parts(next, Seq::<Seq<char>>::empty(), namespace, t.len());
    assert(none == Seq::<(Seq<char>, Seq<char>)>::empty());
    assert(expand_parts(next, seq![x], namespace, t.len()) == none + expand_use_spec(
        next,
        x,
        namespace,
    ));
    assert(none + expand_use_spec(next, x, namespace) =~= expand_use_spec(next, x, namespace));
    assert(expand_parts(next, parts, namespace, t.len()) == expand_parts(next, seq![x], namespace, t.len())
        + expand_use_spec(next, y, namespace));
    lemma_group_leaf(prefix, p, x, namespace);
    lemma_group_leaf(prefix, p, y, namespace);
}

proof fn lemma_trim_start_len(s: Seq<char>)
    ensures
        trim_start(s).len() <= s.len(),
    decreases s.len(),
{
    if s.len() > 0 && is_space(s[0]) {
        lemma_trim_start_len(s.drop_first());
    }
}

proof fn lemma_trim_len(s: Seq<char>)
    ensures
        trim(s).len() <= s.len(),
{
    lemma_trim_start_len(s);
    lemma_trim_end_len(trim_start(s));
}

proof fn lemma_trim_end_len(s: Seq<char>)
    ensures
        crate::text::trim_end(s).len() <= s.len(),
    decreases s.len(),
{
    if s.len() > 0 && is_space(s.last()) {
        lemma_trim_end_len(s.drop_last());
    }
}

proof fn lemma_group_scan_bounds(t: Seq<char>, i: int, depth: nat, start: int)
    requires
        0 <= i,
        start == -1 || 0 <= start < i,
    ensures
        group_scan(t, i, depth, start) matches Some((open, close)) ==> 0 <= open < close < t.len(),
    decreases t.len() - i,
{
    if i < t.len() {
        if t[i] == '{' && depth == 0 {
            lemma_group_scan_bounds(t, i + 1, 1, i);
        } else if t[i] == '{' {
            lemma_group_scan_bounds(t, i + 1, depth + 1, start);
        } else if t[i] == '}' {
            let d: nat = if depth == 0 {
                0
            } else {
                (depth - 1) as nat
            };
            if d != 0 {
                lemma_group_scan_bounds(t, i + 1, d, start);
            }
        } else {
            lemma_group_scan_bounds(t, i + 1, depth, start);
        }
    }
}

proof fn lemma_top_level_scan_lens(t: Seq<char>, delim: char, i: int, depth: nat, start: int)
    requires
        0 <= start <= i <= t.len(),
    ensures
        forall|k: int|
            0 <= k < top_level_scan(t, delim, i, depth, start).len() ==> (#[trigger] top_level_scan(
                t,
                delim,
                i,
                depth,
                start,
            )[k]).len() <= t.len(),
    decreases t.len() - i,
{
    let r = top_level_scan(t, delim, i, depth, start);
    if i >= t.len() {
        lemma_trim_len(t.subrange(start, t.len() as int));
        assert(r == seq![trim(t.subrange(start, t.len() as int))]);
        assert(r.len() == 1);
        assert(r[0].len() <= t.len());
    } else if t[i] == '{' {
        lemma_top_level_scan_lens(t, delim, i + 1, depth + 1, start);
        assert(r == top_level_scan(t, delim, i + 1, depth + 1, start));
    } else if t[i] == '}' {
        let d: nat = if depth == 0 {
            0
        } else {
            (depth - 1) as nat
        };
        lemma_top_level_scan_lens(t, delim, i + 1, d, start);
        assert(r == top_level_scan(t, delim, i + 1, d, start));
    } else if t[i] == delim && depth == 0 {
        lemma_trim_len(t.subrange(start, i));
        lemma_top_level_scan_lens(t, delim, i + 1, depth, i + 1);
        let rest = top_level_scan(t, delim, i + 1, depth, i + 1);
        assert(r == seq![trim(t.subrange(start, i))] + rest);
        assert forall|k: int| 0 <= k < r.len() implies (#[trigger] r[k]).len() <= t.len() by {
            if k > 0 {
                assert(r[k] == rest[k - 1]);
            } else {
                assert(r[k] == trim(t.subrange(start, i)));
            }
        }
    } else {
        lemma_top_level_scan_lens(t, delim, i + 1, depth, start);
        assert(r == top_level_scan(t, delim, i + 1, depth, start));
    }
}

/// Splits a use tree at its first top-level brace group.
pub fn split_use_group(t: &Vec<char>) -> (r: Option<(Vec<char>, Vec<char>)>)
    ensures
        match (r, use_group_spec(t@)) {
            (Some((a, b)), Some((x, y))) => a@ == x && b@ == y,
            (None, None) => true,
            _ => false,
        },
{
    let mut depth: usize = 0;
    let mut start: Option<usize> = None;
    let mut i: usize = 0;
    while i < t.len()
        invariant
            i <= t@.len(),
            depth <= i,
            match start {
                Some(s) => s < i,
                None => true,
            },
            use_group_spec(t@) == match group_scan(
                t@,
                i as int,
                depth as nat,
                match start {
                    Some(s) => s as int,
                    None => -1,
                },
            ) {
                Some((open, close)) => Some((t@.take(open), t@.subrange(open + 1, close))),
                None => None,
            },
        decreases t@.len() - i,
    {
        let c = t[i];
        if c == '{' && depth == 0 {
            start = Some(i);
            depth = 1;
        } else if c == '{' {
            depth += 1;
        } else if c == '}' {
            depth = if depth == 0 {
                0
            } else {
                depth - 1
            };
            if depth == 0 {
                match start {
                    Some(open) => {
                        let before = slice_chars(t, 0, open);
                        let inner = slice_chars(t, open + 1, i);
                        assert(t@.take(open as int) =~= before@);
                        return Some((before, inner));
                    },
                    None => {
                        return None;
                    },
                }
            }
        }
        i += 1;
    }
    None
}

/// Splits a group's items at top-level commas, trimming each part.
pub fn split_top_level(t: &Vec<char>, delim: char) -> (parts: Vec<Vec<char>>)
    ensures
        char_views(parts@) == top_level_parts(t@, delim),
{
    let mut parts: Vec<Vec<char>> = Vec::new();
    let mut depth: usize = 0;
    let mut start: usize = 0;
    let mut i: usize = 0;
    while i < t.len()
        invariant
            i <= t@.len(),
            start <= i,
            depth <= i,
            top_level_parts(t@, delim) == char_views(parts@) + top_level_scan(
                t@,
                delim,
                i as int,
                depth as nat,
                start as int,
            ),
        decreases t@.len() - i,
    {
        let c = t[i];
        if c == '{' {
            depth += 1;
        } else if c == '}' {
            depth = if depth == 0 {
                0
            } else {
                depth - 1
            };
        } else if c == delim && depth == 0 {
            let (a, b) = trim_range(t, start, i);
            let ghost prev = parts@;
            parts.push(slice_chars(t, a, b));
            assert(char_views(parts@) =~= char_views(prev).push(trim(t@.subrange(start as int, i as int))));
            assert(char_views(prev) + top_level_scan(t@, delim, i as int, depth as nat, start as int)
                =~= char_views(parts@) + top_level_scan(t@, delim, i + 1, depth as nat, i + 1));
            start = i + 1;
        }
        i += 1;
    }
    let (a, b) = trim_range(t, start, t.len());
    let ghost prev = parts@;
    parts.push(slice_chars(t, a, b));
    assert(char_views(parts@) =~= char_views(prev) + top_level_scan(
        t@,
        delim,
        i as int,
        depth as nat,
        start as int,
    ));
    parts
}

/// Splits a use tree into its path and its `as` alias.
pub fn split_use_alias(t: &Vec<char>) -> (r: (Vec<char>, Option<Vec<char>>))
    ensures
        r.0@ == use_alias_spec(t@).0,
        match (r.1, use_alias_spec(t@).1) {
            (Some(a), Some(b)) => a@ == b,
            (None, None) => true,
            _ => false,
        },
{
    let marker = chars_of(" as ");
    let n = t.len();
    let mut depth: usize = 0;
    let mut i: usize = 0;
    while i < n
        invariant
            i <= t@.len(),
            n == t@.len(),
            depth <= i,
            marker@ == " as "@,
            alias_scan(t@, 0, 0) == alias_scan(t@, i as int, depth as nat),
        decreases t@.len() - i,
    {
        let c = t[i];
        if c == '{' {
            depth += 1;
        } else if c == '}' {
            depth = if depth == 0 {
                0
            } else {
                depth - 1
            };
        } else if depth == 0 {
            let rest = slice_chars(t, i, n);
            assert(rest@ =~= t@.skip(i as int));
            if chars_have_prefix(&rest, &marker) {
                proof {
                    reveal_strlit(" as ");
                }
                let (a, b) = trim_range(t, 0, i);
                let (c0, d0) = trim_range(t, i + 4, n);
                assert(t@.take(i as int) =~= t@.subrange(0, i as int));
                assert(t@.skip(i + 4) =~= t@.subrange(i + 4, n as int));
                return (slice_chars(t, a, b), Some(slice_chars(t, c0, d0)));
            }
        }
        i += 1;
    }
    let (a, b) = trim_range(t, 0, n);
    assert(t@.subrange(0, n as int) =~= t@);
    (slice_chars(t, a, b), None)
}

/// Drops a leading `pub` or `pub(...)` visibility from a declaration.
pub fn strip_use_visibility(t: &Vec<char>) -> (r: Vec<char>)
    ensures
        r@ == strip_visibility_spec(t@),
{
    let keyword = chars_of("pub");
    proof {
        reveal_strlit("pub");
    }
    if !chars_have_prefix(t, &keyword) {
        return slice_chars_all(t);
    }
    let n = t.len();
    let (a, _) = trim_range(t, 3, n);
    assert(t@.skip(3) =~= t@.subrange(3, n as int));
    if a < n && t[a] == '(' {
        let mut depth: usize = 1;
        let mut i: usize = a + 1;
        let ghost rem = t@.subrange(a + 1, n as int);
        assert(trim_start(t@.skip(3)) =~= t@.subrange(a as int, n as int));
        assert(trim_start(t@.skip(3))[0] == '(');
        assert(t@.subrange(a as int, n as int).drop_first() =~= rem);
        while i < n
            invariant
                a + 1 <= i <= n,
                n == t@.len(),
                rem == t@.subrange(a + 1, n as int),
                has_prefix(t@, "pub"@),
                a < n,
                t@[a as int] == '(',
                trim_start(t@.skip(3)) == t@.subrange(a as int, n as int),
                paren_scan(rem, 0, 1) == paren_scan(rem, i - (a + 1), depth as nat),
                depth >= 1,
                depth <= i,
            decreases n - i,
        {
            let c = t[i];
            assert(rem[i - (a + 1)] == c);
            if c == '(' {
                depth += 1;
            } else if c == ')' {
                depth = depth - 1;
                if depth == 0 {
                    let (b, _) = trim_range(t, i + 1, n);
                    assert(rem.skip(i - (a + 1) + 1) =~= t@.subrange(i + 1, n as int));
                    assert(paren_scan(rem, i - (a + 1), 1) == Some(i - (a + 1)));
                    assert(t@.subrange(b as int, n as int) == trim_start(t@.subrange(i + 1, n as int)));
                    assert(has_prefix(t@, "pub"@));
                    let ghost rest = trim_start(t@.skip(3));
                    assert(rest.len() > 0 && rest[0] == '(');
                    assert(rest.drop_first() == rem);
                    assert(paren_scan(rem, 0, 1) == Some(i - (a + 1)));
                    assert(strip_visibility_spec(t@) == trim_start(rem.skip(i - (a + 1) + 1)));
                    return slice_chars(t, b, n);
                }
            }
            i += 1;
        }
        assert(paren_scan(rem, i - (a + 1), depth as nat) is None);
        return slice_chars_all(t);
    }
    slice_chars(t, a, n)
}

fn slice_chars_all(t: &Vec<char>) -> (r: Vec<char>)
    ensures
        r@ == t@,
{
    let r = slice_chars(t, 0, t.len());
    assert(t@.subrange(0, t@.len() as int) =~= t@);
    r
}

/// Two path pieces joined with `::`, an empty side giving the other.
pub fn join_use_prefix(prefix: &Vec<char>, suffix: &Vec<char>) -> (r: Vec<char>)
    ensures
        r@ == join_use_prefix_spec(prefix@, suffix@),
{
    if prefix.len() == 0 {
        slice_chars_all(suffix)
    } else if suffix.len() == 0 {
        slice_chars_all(prefix)
    } else {
        let mut r = slice_chars_all(prefix);
        r.push(':');
        r.push(':');
        extend_chars(&mut r, suffix);
        assert(r@ =~= prefix@ + path_sep() + suffix@);
        r
    }
}


/// The `(alias, target)` views of a list of string pairs.
pub open spec fn pair_views(v: Seq<(String, String)>) -> Seq<(Seq<char>, Seq<char>)> {
    v.map_values(|p: (String, String)| (p.0@, p.1@))
}

/// The `(alias, target)` views of a list of character-vector pairs.
pub open spec fn char_pair_views(v: Seq<(Vec<char>, Vec<char>)>) -> Seq<(Seq<char>, Seq<char>)> {
    v.map_values(|p: (Vec<char>, Vec<char>)| (p.0@, p.1@))
}

fn path_separator() -> (r: Vec<char>)
    ensures
        r@ == path_sep(),
{
    let r = chars_of("::");
    proof {
        reveal_strlit("::");
    }
    assert(r@ =~= path_sep());
    r
}

fn self_keyword() -> (r: Vec<char>)
    ensures
        r@ == "self"@,
{
    chars_of("self")
}

/// Splits a type spelling, with whitespace removed, into its path and its generic suffix.
pub fn path_prefix_and_suffix(path: &Vec<char>) -> (r: Option<(Vec<char>, Vec<char>)>)
    ensures
        match (r, path_prefix_suffix_spec(path@)) {
            (Some((a, b)), Some((x, y))) => a@ == x && b@ == y,
            (None, None) => true,
            _ => false,
        },
{
    let compact = without_spaces_chars(path);
    let n = compact.len();
    match crate::text::find_char(&compact, '<') {
        Some(i) => {
            if i == 0 {
                None
            } else {
                Some((slice_chars(&compact, 0, i), slice_chars(&compact, i, n)))
            }
        },
        None => {
            if n == 0 {
                None
            } else {
                let empty: Vec<char> = Vec::new();
                assert(empty@ =~= Seq::<char>::empty());
                Some((compact, empty))
            }
        },
    }
}

/// Copies the parts of `v` from position `from` on.
fn parts_from(v: &Vec<Vec<char>>, from: usize) -> (r: Vec<Vec<char>>)
    requires
        from <= v@.len(),
    ensures
        char_views(r@) == char_views(v@).skip(from as int),
{
    let mut r: Vec<Vec<char>> = Vec::new();
    let mut i: usize = from;
    while i < v.len()
        invariant
            from <= i <= v@.len(),
            char_views(r@) == char_views(v@).subrange(from as int, i as int),
        decreases v@.len() - i,
    {
        let ghost prev = r@;
        r.push(slice_chars_all(&v[i]));
        assert(char_views(r@) =~= char_views(prev).push(v@[i as int]@));
        assert(char_views(v@).subrange(from as int, i + 1) =~= char_views(v@).subrange(
            from as int,
            i as int,
        ).push(v@[i as int]@));
        i += 1;
    }
    assert(char_views(v@).subrange(from as int, v@.len() as int) =~= char_views(v@).skip(
        from as int,
    ));
    r
}

/// Resolves the leading `self`, `super` and `crate` segments of a path against the
/// module `namespace`.
pub fn canonicalize_explicit_prefix(segs: &Vec<Vec<char>>, namespace: &Vec<Vec<char>>) -> (r:
    Option<Vec<Vec<char>>>)
    ensures
        match r {
            Some(v) => explicit_prefix_spec(char_views(segs@), char_views(namespace@)) == Some(
                char_views(v@),
            ),
            None => explicit_prefix_spec(char_views(segs@), char_views(namespace@)) is None,
        },
{
    let self_kw = self_keyword();
    let super_kw = chars_of("super");
    let crate_kw = chars_of("crate");
    let ghost svs = char_views(segs@);
    if segs.len() == 0 {
        return None;
    }
    assert(svs[0] == segs@[0]@);
    if !chars_equal(&segs[0], &self_kw) && !chars_equal(&segs[0], &super_kw) && !chars_equal(
        &segs[0],
        &crate_kw,
    ) {
        return None;
    }
    let mut scope = parts_from(namespace, 0);
    assert(char_views(namespace@).skip(0) =~= char_views(namespace@));
    let mut i: usize = 0;
    loop
        invariant
            i <= segs@.len(),
            svs == char_views(segs@),
            self_kw@ == "self"@,
            super_kw@ == "super"@,
            crate_kw@ == "crate"@,
            explicit_prefix_spec(svs, char_views(namespace@)) == explicit_walk(
                svs,
                i as int,
                char_views(scope@),
            ),
        decreases segs@.len() - i,
    {
        if i < segs.len() {
            assert(svs[i as int] == segs@[i as int]@);
        }
        if i < segs.len() && chars_equal(&segs[i], &self_kw) {
            i += 1;
        } else if i < segs.len() && chars_equal(&segs[i], &super_kw) {
            if scope.len() == 0 {
                return None;
            }
            let ghost prev = scope@;
            scope.pop();
            assert(char_views(scope@) =~= char_views(prev).drop_last());
            i += 1;
        } else if i < segs.len() && chars_equal(&segs[i], &crate_kw) {
            return Some(parts_from(segs, i + 1));
        } else {
            let tail = parts_from(segs, i);
            let ghost prev = scope@;
            let mut j: usize = 0;
            while j < tail.len()
                invariant
                    j <= tail@.len(),
                    char_views(scope@) == char_views(prev) + char_views(tail@).take(j as int),
                decreases tail@.len() - j,
            {
                let ghost before = scope@;
                scope.push(slice_chars_all(&tail[j]));
                assert(char_views(scope@) =~= char_views(before).push(tail@[j as int]@));
                assert(char_views(tail@).take(j + 1) =~= char_views(tail@).take(j as int).push(
                    tail@[j as int]@,
                ));
                j += 1;
            }
            assert(char_views(tail@).take(tail@.len() as int) =~= char_views(tail@));
            return Some(scope);
        }
    }
}

/// The canonical crate-local target of a `use` path written in the module `namespace`.
pub fn canonicalize_use_target(path: &Vec<char>, namespace: &Vec<Vec<char>>) -> (r: Vec<char>)
    ensures
        r@ == canonical_use_target(path@, char_views(namespace@)),
{
    let compact = without_spaces_chars(path);
    match path_prefix_and_suffix(path) {
        None => compact,
        Some((prefix, _)) => {
            let sep = path_separator();
            let segs = split_text_chars(&prefix, &sep);
            match canonicalize_explicit_prefix(&segs, namespace) {
                Some(v) => join_chars(&v, &sep),
                None => {
                    let self_kw = self_keyword();
                    if chars_equal(&compact, &self_kw) {
                        join_chars(namespace, &sep)
                    } else {
                        prefix
                    }
                },
            }
        },
    }
}


/// Appends the `(alias, target)` pairs of a use tree under a path `prefix`, written in the
/// module `namespace`.
pub fn expand_use_tree(
    prefix: &Vec<char>,
    tree: &Vec<char>,
    namespace: &Vec<Vec<char>>,
    aliases: &mut Vec<(Vec<char>, Vec<char>)>,
)
    ensures
        char_pair_views(final(aliases)@) == char_pair_views(old(aliases)@) + expand_use_spec(
            prefix@,
            tree@,
            char_views(namespace@),
        ),
    decreases tree@.len(),
{
    let ghost ns = char_views(namespace@);
    let (a, b) = trim_range(tree, 0, tree.len());
    let t = slice_chars(tree, a, b);
    assert(tree@.subrange(0, tree@.len() as int) =~= tree@);
    proof {
        lemma_trim_len(tree@);
    }
    if t.len() == 0 {
        assert(char_pair_views(aliases@) =~= char_pair_views(aliases@) + Seq::empty());
        return;
    }
    match split_use_group(&t) {
        Some((group_prefix, items)) => {
            proof {
                lemma_group_scan_bounds(t@, 0, 0, -1);
            }
            let sep = path_separator();
            let trimmed = trim_end_text_chars(&group_prefix, &sep);
            let next = join_use_prefix(prefix, &trimmed);
            let parts = split_top_level(&items, ',');
            proof {
                lemma_top_level_scan_lens(items@, ',', 0, 0, 0);
            }
            let ghost pv = top_level_parts(items@, ',');
            assert(trim(tree@) == t@);
            assert(use_group_spec(t@) == Some((group_prefix@, items@)));
            assert(expand_use_spec(prefix@, tree@, ns) == expand_parts(
                next@,
                pv,
                ns,
                tree@.len(),
            ));
            let ghost start = char_pair_views(aliases@);
            let mut k: usize = 0;
            assert(pv.take(0) =~= Seq::<Seq<char>>::empty());
            while k < parts.len()
                invariant
                    k <= parts@.len(),
                    char_views(parts@) == pv,
                    forall|j: int| 0 <= j < pv.len() ==> (#[trigger] pv[j]).len() <= items@.len(),
                    items@.len() < tree@.len(),
                    ns == char_views(namespace@),
                    char_pair_views(aliases@) == start + expand_parts(
                        next@,
                        pv.take(k as int),
                        ns,
                        tree@.len(),
                    ),
                decreases parts@.len() - k,
            {
                assert(pv[k as int] == parts@[k as int]@);
                assert(pv[k as int].len() <= items@.len());
                assert(pv.take(k + 1).drop_last() =~= pv.take(k as int));
                expand_use_tree(&next, &parts[k], namespace, aliases);
                assert(char_pair_views(aliases@) =~= start + expand_parts(
                    next@,
                    pv.take(k + 1),
                    ns,
                    tree@.len(),
                ));
                k += 1;
            }
            assert(pv.take(pv.len() as int) =~= pv);
        },
        None => {
            let (path, alias_override) = split_use_alias(&t);
            let self_kw = self_keyword();
            let is_self = chars_equal(&path, &self_kw);
            let full = if is_self {
                slice_chars_all(prefix)
            } else {
                join_use_prefix(prefix, &path)
            };
            let target = canonicalize_use_target(&full, namespace);
            if target.len() == 0 {
                assert(char_pair_views(aliases@) =~= char_pair_views(aliases@) + Seq::empty());
                return;
            }
            let sep = path_separator();
            let alias = match alias_override {
                Some(x) => x,
                None => {
                    if is_self {
                        after_last_chars(&target, &sep)
                    } else {
                        after_last_chars(&path, &sep)
                    }
                },
            };
            let ghost prev = aliases@;
            aliases.push((alias, target));
            assert(char_pair_views(aliases@) =~= char_pair_views(prev) + expand_use_spec(
                prefix@,
                tree@,
                ns,
            ));
        },
    }
}

/// The character views of the segments of a module namespace.
fn namespace_chars(namespace: &[String]) -> (ns: Vec<Vec<char>>)
    ensures
        char_views(ns@) == string_views(namespace@),
{
    let mut ns: Vec<Vec<char>> = Vec::new();
    let mut i: usize = 0;
    while i < namespace.len()
        invariant
            i <= namespace@.len(),
            char_views(ns@) == string_views(namespace@).take(i as int),
        decreases namespace@.len() - i,
    {
        let ghost prev = ns@;
        let item = chars_of(namespace[i].as_str());
        assert(item@ == namespace@[i as int]@);
        ns.push(item);
        assert(char_views(ns@) =~= char_views(prev).push(namespace@[i as int]@));
        assert(string_views(namespace@).take(i + 1) =~= string_views(namespace@).take(
            i as int,
        ).push(namespace@[i as int]@));
        i += 1;
    }
    assert(string_views(namespace@).take(namespace@.len() as int) =~= string_views(namespace@));
    ns
}

fn trimmed_copy(v: &Vec<char>) -> (r: Vec<char>)
    ensures
        r@ == trim(v@),
{
    let (a, b) = trim_range(v, 0, v.len());
    assert(v@.subrange(0, v@.len() as int) =~= v@);
    slice_chars(v, a, b)
}

/// The use tree of a declaration, without visibility, `use` keyword and final `;`.
pub fn use_body(text: &str) -> (r: Vec<char>)
    ensures
        r@ == use_body_spec(text@),
{
    let raw = chars_of(text);
    let d0 = strip_use_visibility(&trimmed_copy(&raw));
    let use_kw = chars_of("use");
    let d0b = match crate::text::strip_prefix_chars(&d0, &use_kw) {
        Some(rest) => rest,
        None => d0,
    };
    let d1 = trimmed_copy(&d0b);
    let mut semi: Vec<char> = Vec::new();
    semi.push(';');
    assert(semi@ =~= seq![';']);
    let d1b = match crate::text::strip_suffix_chars(&d1, &semi) {
        Some(rest) => rest,
        None => d1,
    };
    trimmed_copy(&d1b)
}

fn strings_of_pairs(pairs: &Vec<(Vec<char>, Vec<char>)>) -> (out: Vec<(String, String)>)
    ensures
        pair_views(out@) == char_pair_views(pairs@),
{
    let mut out: Vec<(String, String)> = Vec::new();
    let mut j: usize = 0;
    while j < pairs.len()
        invariant
            j <= pairs@.len(),
            pair_views(out@) == char_pair_views(pairs@).take(j as int),
        decreases pairs@.len() - j,
    {
        let alias = string_from_chars(&pairs[j].0);
        let target = string_from_chars(&pairs[j].1);
        let ghost prev = out@;
        out.push((alias, target));
        assert(pair_views(out@) =~= pair_views(prev).push((pairs@[j as int].0@, pairs@[j as int].1@)));
        assert(char_pair_views(pairs@).take(j + 1) =~= char_pair_views(pairs@).take(j as int).push(
            (pairs@[j as int].0@, pairs@[j as int].1@),
        ));
        j += 1;
    }
    assert(char_pair_views(pairs@).take(pairs@.len() as int) =~= char_pair_views(pairs@));
    out
}

/// The `(alias, canonical target)` pairs that a `use` declaration brings into the module
/// `namespace`, in the order its tree lists them.
pub fn parse_use_declaration(text: &str, namespace: &[String]) -> (r: Vec<(String, String)>)
    ensures
        pair_views(r@) == use_declaration_spec(text@, string_views(namespace@)),
{
    let ns = namespace_chars(namespace);
    let body = use_body(text);
    let empty: Vec<char> = Vec::new();
    assert(empty@ =~= Seq::<char>::empty());
    let mut pairs: Vec<(Vec<char>, Vec<char>)> = Vec::new();
    expand_use_tree(&empty, &body, &ns, &mut pairs);
    assert(char_pair_views(pairs@) =~= use_declaration_spec(text@, string_views(namespace@)));
    strings_of_pairs(&pairs)
}

} // verus!
