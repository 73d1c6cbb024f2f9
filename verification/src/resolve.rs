//! How the target of an `impl` block is named: its type spelling compacted, paths that
//! start with `self`, `super` or `crate` resolved, and names matched against the types
//! the file defines.

use vstd::prelude::*;

use crate::syntax::SyntaxItem;
use crate::text::{
    char_views, chars_equal, chars_of, extend_chars, find_char, find_text, find_text_from,
    first_index, has_prefix, is_space, is_whitespace_char, join_chars, join_with, slice_chars,
    split_text, split_text_chars, trim,
};
use crate::use_tree::{
    canonicalize_explicit_prefix, char_pair_views, expand_use_tree, explicit_prefix_spec, path_sep,
    use_body, use_declaration_spec,
};

verus! {

/// The whitespace-separated tokens of a text, in order.
pub open spec fn ws_tokens(s: Seq<char>) -> Seq<Seq<char>>
    decreases s.len(),
{
    if s.len() == 0 {
        Seq::empty()
    } else {
        let rest = ws_tokens(s.drop_last());
        if is_space(s.last()) {
            rest
        } else if s.len() >= 2 && !is_space(s[s.len() - 2]) && rest.len() > 0 {
            rest.update(rest.len() - 1, rest.last().push(s.last()))
        } else {
            rest.push(seq![s.last()])
        }
    }
}

/// Tokens joined without spaces, except that `dyn` stays apart from what follows it.
pub open spec fn join_tokens(tokens: Seq<Seq<char>>) -> Seq<char>
    decreases tokens.len(),
{
    if tokens.len() == 0 {
        Seq::empty()
    } else if tokens.len() >= 2 && tokens[tokens.len() - 2] == "dyn"@ {
        join_tokens(tokens.drop_last()) + seq![' '] + tokens.last()
    } else {
        join_tokens(tokens.drop_last()) + tokens.last()
    }
}

/// A type spelling without whitespace, `dyn` kept apart from the trait it qualifies.
pub open spec fn compact_type_spec(s: Seq<char>) -> Seq<char> {
    join_tokens(ws_tokens(s))
}

/// Trailing whitespace adds no token.
proof fn lemma_trailing_spaces_add_no_token(a: Seq<char>, w: Seq<char>)
    requires
        forall|k: int| 0 <= k < w.len() ==> is_space(#[trigger] w[k]),
    ensures
        ws_tokens(a + w) == ws_tokens(a),
    decreases w.len(),
{
    if w.len() == 0 {
        assert(a + w =~= a);
    } else {
        assert((a + w).drop_last() =~= a + w.drop_last());
        assert((a + w).last() == w.last());
        lemma_trailing_spaces_add_no_token(a, w.drop_last());
    }
}

/// Replacing one whitespace character of a type spelling by any non-empty run of
/// whitespace leaves its tokens, and so its compact form, unchanged.
pub proof fn lemma_whitespace_run_ignored(a: Seq<char>, c: char, w: Seq<char>, b: Seq<char>)
    requires
        is_space(c),
        w.len() > 0,
        forall|k: int| 0 <= k < w.len() ==> is_space(#[trigger] w[k]),
    ensures
        ws_tokens(a + seq![c] + b) == ws_tokens(a + w + b),
        compact_type_spec(a + seq![c] + b) == compact_type_spec(a + w + b),
    decreases b.len(),
{
    let x = a + seq![c] + b;
    let y = a + w + b;
    if b.len() == 0 {
        assert(x =~= a + seq![c]);
        assert(y =~= a + w);
        lemma_trailing_spaces_add_no_token(a, seq![c]);
        lemma_trailing_spaces_add_no_token(a, w);
    } else {
        lemma_whitespace_run_ignored(a, c, w, b.drop_last());
        assert(x.drop_last() =~= a + seq![c] + b.drop_last());
        assert(y.drop_last() =~= a + w + b.drop_last());
        assert(x.last() == b.last());
        assert(y.last() == b.last());
        if b.len() >= 2 {
            assert(x[x.len() - 2] == b[b.len() - 2]);
            assert(y[y.len() - 2] == b[b.len() - 2]);
        } else {
            assert(x[x.len() - 2] == c);
            assert(y[y.len() - 2] == w.last());
        }
    }
}

/// A compact type spelling split at its first `<` into its path and its generic suffix;
/// none for an empty spelling or one that starts with `<`.
pub open spec fn generic_split_spec(compact: Seq<char>) -> Option<(Seq<char>, Seq<char>)> {
    let i = first_index(compact, '<');
    if compact.len() == 0 || i == 0 {
        None
    } else if i < 0 {
        Some((compact, Seq::<char>::empty()))
    } else {
        Some((compact.take(i), compact.skip(i)))
    }
}

/// The key under which a type's symbol is recorded.
pub open spec fn type_symbol_key(path: Seq<char>) -> Seq<char> {
    "type:"@ + path
}

/// The first of `scope::path`, its parent scopes' `..::path`, and `path` itself that
/// names a type the file defines.
pub open spec fn resolve_local_spec(path: Seq<char>, scope: Seq<Seq<char>>, types: Seq<Seq<char>>) -> Option<
    Seq<char>,
>
    decreases scope.len(),
{
    let candidate = if scope.len() == 0 {
        path
    } else {
        join_with(scope, path_sep()) + path_sep() + path
    };
    if types.contains(type_symbol_key(candidate)) {
        Some(candidate)
    } else if scope.len() == 0 {
        None
    } else {
        resolve_local_spec(path, scope.drop_last(), types)
    }
}

/// The crate-local path an impl target names: the target of the `use` alias it names,
/// else a path starting with `self`, `super` or `crate` resolved against the namespace,
/// else a defined type found from the namespace outwards.
pub open spec fn canonical_path_spec(
    prefix: Seq<char>,
    namespace: Seq<Seq<char>>,
    types: Seq<Seq<char>>,
    aliases: Seq<AliasEntry>,
) -> Option<Seq<char>> {
    match resolve_imported_spec(prefix, namespace, aliases, types) {
        Some(r) => Some(r),
        None => match explicit_prefix_spec(split_text(prefix, path_sep()), namespace) {
            Some(segs) => Some(join_with(segs, path_sep())),
            None => resolve_local_spec(prefix, namespace, types),
        },
    }
}

/// A type name that resolves to nothing: kept as spelled when it is a path, `Self`, or at
/// the crate root, else qualified by the namespace.
pub open spec fn unresolved_name(compact: Seq<char>, namespace: Seq<Seq<char>>) -> Seq<char> {
    if find_text_from(compact, path_sep(), 0) >= 0 || namespace.len() == 0 || compact == "Self"@ {
        compact
    } else {
        join_with(namespace, path_sep()) + path_sep() + compact
    }
}

/// The name an impl block's type is known by, and the key of the type symbol it belongs
/// to when the file defines that type.
pub open spec fn impl_type_spec(
    text: Seq<char>,
    namespace: Seq<Seq<char>>,
    types: Seq<Seq<char>>,
    aliases: Seq<AliasEntry>,
) -> (Seq<char>, Option<Seq<char>>) {
    let compact = compact_type_spec(text);
    match generic_split_spec(compact) {
        Some((prefix, suffix)) => match canonical_path_spec(prefix, namespace, types, aliases) {
            Some(c) => (
                c + suffix,
                if types.contains(type_symbol_key(c)) {
                    Some(type_symbol_key(c))
                } else {
                    None
                },
            ),
            None => (unresolved_name(compact, namespace), None),
        },
        None => (unresolved_name(compact, namespace), None),
    }
}

/// The keys of the types a list of items defines at module level, modules included,
/// under the namespace `namespace`, in order.
pub open spec fn local_types_spec(items: Seq<SyntaxItem>, namespace: Seq<Seq<char>>) -> Seq<
    Seq<char>,
>
    decreases items, 1nat,
{
    if items.len() == 0 {
        Seq::empty()
    } else {
        local_types_spec(items.drop_last(), namespace) + local_types_item(items.last(), namespace)
    }
}

/// The keys of the types one item defines at module level.
pub open spec fn local_types_item(item: SyntaxItem, namespace: Seq<Seq<char>>) -> Seq<Seq<char>>
    decreases item, 0nat,
{
    let kind = item.kind@;
    match item.name {
        None => Seq::empty(),
        Some(n) => if kind == "mod_item"@ {
            match item.body {
                Some(b) => local_types_spec(b@, namespace.push(n@)),
                None => Seq::empty(),
            }
        } else if kind == "struct_item"@ || kind == "enum_item"@ || kind == "union_item"@ || kind
            == "trait_item"@ || kind == "type_item"@ {
            seq![
                type_symbol_key(
                    if namespace.len() == 0 {
                        n@
                    } else {
                        join_with(namespace, path_sep()) + path_sep() + n@
                    },
                ),
            ]
        } else {
            Seq::empty()
        },
    }
}


fn copy_chars(v: &Vec<char>) -> (r: Vec<char>)
    ensures
        r@ == v@,
{
    let mut r: Vec<char> = Vec::new();
    extend_chars(&mut r, v);
    assert(r@ =~= v@);
    r
}

fn separator() -> (r: Vec<char>)
    ensures
        r@ == path_sep(),
{
    let mut r: Vec<char> = Vec::new();
    r.push(':');
    r.push(':');
    assert(r@ =~= path_sep());
    r
}

/// The whitespace-separated tokens of a text.
fn whitespace_tokens(v: &Vec<char>) -> (tokens: Vec<Vec<char>>)
    ensures
        char_views(tokens@) == ws_tokens(v@),
{
    let mut tokens: Vec<Vec<char>> = Vec::new();
    let mut i: usize = 0;
    while i < v.len()
        invariant
            i <= v@.len(),
            char_views(tokens@) == ws_tokens(v@.take(i as int)),
        decreases v@.len() - i,
    {
        let c = v[i];
        let ghost prev = tokens@;
        let ghost cur = v@.take(i + 1);
        assert(cur.drop_last() =~= v@.take(i as int));
        assert(cur.last() == c);
        if is_whitespace_char(c) {
        } else if i >= 1 && !is_whitespace_char(v[i - 1]) && tokens.len() > 0 {
            assert(cur[cur.len() - 2] == v@[i - 1]);
            let mut last = tokens.pop().unwrap();
            last.push(c);
            tokens.push(last);
            assert(char_views(tokens@) =~= char_views(prev).update(
                prev.len() - 1,
                char_views(prev).last().push(c),
            ));
        } else {
            proof {
                if i >= 1 {
                    assert(cur[cur.len() - 2] == v@[i - 1]);
                }
            }
            let mut token: Vec<char> = Vec::new();
            token.push(c);
            tokens.push(token);
            assert(char_views(tokens@) =~= char_views(prev).push(seq![c]));
        }
        i += 1;
    }
    assert(v@.take(v@.len() as int) =~= v@);
    tokens
}

/// A type spelling without whitespace, `dyn` kept apart from the trait it qualifies.
pub fn compact_type_name(text: &Vec<char>) -> (r: Vec<char>)
    ensures
        r@ == compact_type_spec(text@),
{
    let tokens = whitespace_tokens(text);
    let ghost tv = char_views(tokens@);
    let dyn_kw = chars_of("dyn");
    let mut r: Vec<char> = Vec::new();
    let mut i: usize = 0;
    while i < tokens.len()
        invariant
            i <= tokens@.len(),
            tv == char_views(tokens@),
            dyn_kw@ == "dyn"@,
            r@ == join_tokens(tv.take(i as int)),
        decreases tokens@.len() - i,
    {
        let ghost t = tv.take(i + 1);
        assert(t.drop_last() =~= tv.take(i as int));
        assert(t.last() == tokens@[i as int]@);
        if i >= 1 {
            assert(t[t.len() - 2] == tokens@[i - 1]@);
        }
        if i >= 1 && chars_equal(&tokens[i - 1], &dyn_kw) {
            r.push(' ');
        }
        extend_chars(&mut r, &tokens[i]);
        assert(r@ =~= join_tokens(t));
        i += 1;
    }
    assert(tv.take(tokens@.len() as int) =~= tv);
    r
}

/// A compact type spelling split at its first `<`.
fn generic_split(compact: &Vec<char>) -> (r: Option<(Vec<char>, Vec<char>)>)
    ensures
        match (r, generic_split_spec(compact@)) {
            (Some((a, b)), Some((x, y))) => a@ == x && b@ == y,
            (None, None) => true,
            _ => false,
        },
{
    let n = compact.len();
    let found = find_char(compact, '<');
    match found {
        Some(i) => {
            if i == 0 {
                None
            } else {
                Some((slice_chars(compact, 0, i), slice_chars(compact, i, n)))
            }
        },
        None => {
            if n == 0 {
                None
            } else {
                let empty: Vec<char> = Vec::new();
                assert(empty@ =~= Seq::<char>::empty());
                Some((copy_chars(compact), empty))
            }
        },
    }
}

/// Whether `key` is one of `keys`.
pub fn has_key(keys: &Vec<Vec<char>>, key: &Vec<char>) -> (b: bool)
    ensures
        b == char_views(keys@).contains(key@),
{
    let ghost kv = char_views(keys@);
    let mut i: usize = 0;
    while i < keys.len()
        invariant
            i <= keys@.len(),
            kv == char_views(keys@),
            forall|j: int| 0 <= j < i ==> kv[j] != key@,
        decreases keys@.len() - i,
    {
        assert(kv[i as int] == keys@[i as int]@);
        if chars_equal(&keys[i], key) {
            return true;
        }
        i += 1;
    }
    false
}

fn type_key_of(path: &Vec<char>) -> (r: Vec<char>)
    ensures
        r@ == type_symbol_key(path@),
{
    let mut r = chars_of("type:");
    extend_chars(&mut r, path);
    r
}

fn scoped_path(scope: &Vec<Vec<char>>, k: usize, path: &Vec<char>) -> (r: Vec<char>)
    requires
        k <= scope@.len(),
    ensures
        r@ == (if k == 0 {
            path@
        } else {
            join_with(char_views(scope@).take(k as int), path_sep()) + path_sep() + path@
        }),
{
    if k == 0 {
        return copy_chars(path);
    }
    let mut parts: Vec<Vec<char>> = Vec::new();
    let mut j: usize = 0;
    while j < k
        invariant
            j <= k <= scope@.len(),
            char_views(parts@) == char_views(scope@).take(j as int),
        decreases k - j,
    {
        let ghost prev = parts@;
        parts.push(copy_chars(&scope[j]));
        assert(char_views(parts@) =~= char_views(prev).push(scope@[j as int]@));
        assert(char_views(scope@).take(j + 1) =~= char_views(scope@).take(j as int).push(
            scope@[j as int]@,
        ));
        j += 1;
    }
    let sep = separator();
    let mut r = join_chars(&parts, &sep);
    extend_chars(&mut r, &sep);
    extend_chars(&mut r, path);
    r
}

/// The first of `scope::path`, its parent scopes' `..::path`, and `path` itself that
/// names a type of `types`.
pub fn resolve_local_path(path: &Vec<char>, scope: &Vec<Vec<char>>, types: &Vec<Vec<char>>) -> (r:
    Option<Vec<char>>)
    ensures
        opt_view(r) == resolve_local_spec(path@, char_views(scope@), char_views(types@)),
{
    let mut k: usize = scope.len();
    assert(char_views(scope@).take(k as int) =~= char_views(scope@));
    loop
        invariant
            k <= scope@.len(),
            resolve_local_spec(path@, char_views(scope@), char_views(types@)) == resolve_local_spec(
                path@,
                char_views(scope@).take(k as int),
                char_views(types@),
            ),
        decreases k,
    {
        let ghost sv = char_views(scope@).take(k as int);
        let candidate = scoped_path(scope, k, path);
        if has_key(types, &type_key_of(&candidate)) {
            return Some(candidate);
        }
        if k == 0 {
            return None;
        }
        assert(sv.drop_last() =~= char_views(scope@).take(k - 1));
        k -= 1;
    }
}

/// The text views of an optional character vector.
pub open spec fn opt_view(v: Option<Vec<char>>) -> Option<Seq<char>> {
    match v {
        Some(t) => Some(t@),
        None => None,
    }
}

/// The crate-local path an impl target names, when it resolves.
fn canonical_path(
    prefix: &Vec<char>,
    namespace: &Vec<Vec<char>>,
    types: &Vec<Vec<char>>,
    aliases: &Vec<(Vec<char>, Vec<char>, Vec<char>)>,
) -> (r: Option<Vec<char>>)
    ensures
        opt_view(r) == canonical_path_spec(
            prefix@,
            char_views(namespace@),
            char_views(types@),
            alias_views(aliases@),
        ),
{
    if let Some(r) = resolve_imported_path(prefix, namespace, aliases, types) {
        return Some(r);
    }
    let sep = separator();
    let segs = split_text_chars(prefix, &sep);
    match canonicalize_explicit_prefix(&segs, namespace) {
        Some(v) => Some(join_chars(&v, &sep)),
        None => resolve_local_path(prefix, namespace, types),
    }
}

fn unresolved(compact: Vec<char>, namespace: &Vec<Vec<char>>) -> (r: Vec<char>)
    ensures
        r@ == unresolved_name(compact@, char_views(namespace@)),
{
    let sep = separator();
    if find_text(&compact, &sep, 0).is_some() || namespace.len() == 0 || chars_equal(
        &compact,
        &chars_of("Self"),
    ) {
        compact
    } else {
        let mut r = join_chars(namespace, &sep);
        extend_chars(&mut r, &sep);
        extend_chars(&mut r, &compact);
        r
    }
}

/// The name an impl block's type is known by, and the key of the type symbol it belongs
/// to when the file defines that type.
pub fn impl_type(
    text: &Vec<char>,
    namespace: &Vec<Vec<char>>,
    types: &Vec<Vec<char>>,
    aliases: &Vec<(Vec<char>, Vec<char>, Vec<char>)>,
) -> (r: (Vec<char>, Option<Vec<char>>))
    ensures
        (r.0@, opt_view(r.1)) == impl_type_spec(
            text@,
            char_views(namespace@),
            char_views(types@),
            alias_views(aliases@),
        ),
{
    let compact = compact_type_name(text);
    match generic_split(&compact) {
        Some((prefix, suffix)) => match canonical_path(&prefix, namespace, types, aliases) {
            Some(c) => {
                let key = type_key_of(&c);
                let owner = if has_key(types, &key) {
                    Some(key)
                } else {
                    None
                };
                let mut name = c;
                extend_chars(&mut name, &suffix);
                (name, owner)
            },
            None => (unresolved(compact, namespace), None),
        },
        None => (unresolved(compact, namespace), None),
    }
}


fn text_of(s: &String) -> (r: Vec<char>)
    ensures
        r@ == s@,
{
    chars_of(s.as_str())
}

fn kind_is(kind: &Vec<char>, lit: &str) -> (b: bool)
    ensures
        b == (kind@ == lit@),
{
    chars_equal(kind, &chars_of(lit))
}

fn copy_parts(v: &Vec<Vec<char>>) -> (r: Vec<Vec<char>>)
    ensures
        char_views(r@) == char_views(v@),
{
    let mut r: Vec<Vec<char>> = Vec::new();
    let mut i: usize = 0;
    while i < v.len()
        invariant
            i <= v@.len(),
            char_views(r@) == char_views(v@).take(i as int),
        decreases v@.len() - i,
    {
        let ghost prev = r@;
        r.push(copy_chars(&v[i]));
        assert(char_views(r@) =~= char_views(prev).push(v@[i as int]@));
        assert(char_views(v@).take(i + 1) =~= char_views(v@).take(i as int).push(v@[i as int]@));
        i += 1;
    }
    assert(char_views(v@).take(v@.len() as int) =~= char_views(v@));
    r
}

/// Appends the keys of the types one item defines at module level.
fn local_types_of_item(item: &SyntaxItem, namespace: &Vec<Vec<char>>, keys: &mut Vec<Vec<char>>)
    ensures
        char_views(final(keys)@) == char_views(old(keys)@) + local_types_item(
            *item,
            char_views(namespace@),
        ),
    decreases item, 0nat,
{
    let ghost start = char_views(keys@);
    match &item.name {
        None => {
            assert(char_views(keys@) =~= start + Seq::<Seq<char>>::empty());
        },
        Some(n) => {
            let name = text_of(n);
            let kind = text_of(&item.kind);
            if kind_is(&kind, "mod_item") {
                match &item.body {
                    Some(b) => {
                        let mut inner = copy_parts(namespace);
                        let ghost before = inner@;
                        inner.push(name);
                        assert(char_views(inner@) =~= char_views(before).push(n@));
                        local_types_of_list(b, &inner, keys);
                    },
                    None => {
                        assert(char_views(keys@) =~= start + Seq::<Seq<char>>::empty());
                    },
                }
            } else if kind_is(&kind, "struct_item") || kind_is(&kind, "enum_item") || kind_is(
                &kind,
                "union_item",
            ) || kind_is(&kind, "trait_item") || kind_is(&kind, "type_item") {
                let path = scoped_path(namespace, namespace.len(), &name);
                assert(char_views(namespace@).take(namespace@.len() as int) =~= char_views(
                    namespace@,
                ));
                let ghost prev = keys@;
                keys.push(type_key_of(&path));
                assert(char_views(keys@) =~= char_views(prev).push(type_symbol_key(path@)));
                assert(local_types_item(*item, char_views(namespace@)) =~= seq![
                    type_symbol_key(path@),
                ]);
            } else {
                assert(char_views(keys@) =~= start + Seq::<Seq<char>>::empty());
            }
        },
    }
}

/// Appends the keys of the types a list of items defines at module level.
fn local_types_of_list(items: &Vec<SyntaxItem>, namespace: &Vec<Vec<char>>, keys: &mut Vec<Vec<char>>)
    ensures
        char_views(final(keys)@) == char_views(old(keys)@) + local_types_spec(
            items@,
            char_views(namespace@),
        ),
    decreases items@, 1nat,
{
    let ghost start = char_views(keys@);
    let mut i: usize = 0;
    assert(items@.take(0) =~= Seq::<SyntaxItem>::empty());
    assert(start =~= start + local_types_spec(items@.take(0), char_views(namespace@)));
    while i < items.len()
        invariant
            i <= items@.len(),
            char_views(keys@) == start + local_types_spec(
                items@.take(i as int),
                char_views(namespace@),
            ),
        decreases items@.len() - i,
    {
        local_types_of_item(&items[i], namespace, keys);
        assert(items@.take(i + 1).drop_last() =~= items@.take(i as int));
        assert(items@.take(i + 1).last() == items@[i as int]);
        assert(char_views(keys@) =~= start + local_types_spec(
            items@.take(i + 1),
            char_views(namespace@),
        ));
        i += 1;
    }
    assert(items@.take(items@.len() as int) =~= items@);
}

/// The keys of the types the items define at module level, modules included.
pub fn local_types(items: &Vec<SyntaxItem>, namespace: &Vec<Vec<char>>) -> (r: Vec<Vec<char>>)
    ensures
        char_views(r@) == local_types_spec(items@, char_views(namespace@)),
{
    let mut keys: Vec<Vec<char>> = Vec::new();
    local_types_of_list(items, namespace, &mut keys);
    assert(char_views(keys@) =~= Seq::<Seq<char>>::empty() + local_types_spec(
        items@,
        char_views(namespace@),
    ));
    keys
}


/// The key of a module scope: its namespace joined by `::`.
pub open spec fn scope_key_spec(namespace: Seq<Seq<char>>) -> Seq<char> {
    join_with(namespace, path_sep())
}

/// One `use` alias: the scope key of the module that declares it, the alias and its
/// canonical target.
pub type AliasEntry = (Seq<char>, Seq<char>, Seq<char>);

/// The aliases one item declares: those of a `use` declaration in the current scope, and
/// those of a named module's body in the module's scope.
pub open spec fn aliases_item(item: SyntaxItem, namespace: Seq<Seq<char>>) -> Seq<AliasEntry>
    decreases item, 0nat,
{
    let kind = item.kind@;
    if kind == "use_declaration"@ {
        match item.text {
            Some(t) => {
                let pairs = use_declaration_spec(t@, namespace);
                Seq::new(
                    pairs.len(),
                    |i: int| (scope_key_spec(namespace), pairs[i].0, pairs[i].1),
                )
            },
            None => Seq::empty(),
        }
    } else if kind == "mod_item"@ {
        match (item.name, item.body) {
            (Some(n), Some(b)) => aliases_spec(b@, namespace.push(n@)),
            _ => Seq::empty(),
        }
    } else {
        Seq::empty()
    }
}

/// The aliases a list of items declares, in order.
pub open spec fn aliases_spec(items: Seq<SyntaxItem>, namespace: Seq<Seq<char>>) -> Seq<AliasEntry>
    decreases items, 1nat,
{
    if items.len() == 0 {
        Seq::empty()
    } else {
        aliases_spec(items.drop_last(), namespace) + aliases_item(items.last(), namespace)
    }
}

/// The target of the last alias named `alias` in the scope `key`.
pub open spec fn lookup_alias_spec(entries: Seq<AliasEntry>, key: Seq<char>, alias: Seq<char>) -> Option<
    Seq<char>,
>
    decreases entries.len(),
{
    if entries.len() == 0 {
        None
    } else if entries.last().0 == key && entries.last().1 == alias {
        Some(entries.last().2)
    } else {
        lookup_alias_spec(entries.drop_last(), key, alias)
    }
}

/// Whether the scope `key` declares any alias.
pub open spec fn scope_has_aliases(entries: Seq<AliasEntry>, key: Seq<char>) -> bool {
    exists|i: int| 0 <= i < entries.len() && (#[trigger] entries[i]).0 == key
}

/// A path's leading `self`, `super` and `crate` segments applied to the module `scope`:
/// the scope the rest of the path is read in, and that rest; none when `super` climbs
/// above the crate root or nothing is left.
pub open spec fn alias_walk(rest: Seq<char>, scope: Seq<Seq<char>>) -> Option<
    (Seq<Seq<char>>, Seq<char>),
>
    decreases rest.len(),
{
    if has_prefix(rest, "self::"@) && "self::"@.len() > 0 {
        alias_walk(rest.skip("self::"@.len() as int), scope)
    } else if has_prefix(rest, "super::"@) && "super::"@.len() > 0 {
        if scope.len() == 0 {
            None
        } else {
            alias_walk(rest.skip("super::"@.len() as int), scope.drop_last())
        }
    } else {
        let (s, r) = if has_prefix(rest, "crate::"@) {
            (Seq::<Seq<char>>::empty(), rest.skip("crate::"@.len() as int))
        } else {
            (scope, rest)
        };
        if r.len() == 0 {
            None
        } else {
            Some((s, r))
        }
    }
}

/// An alias target qualified by the alias's scope when that names a defined type.
pub open spec fn qualify_alias_spec(target: Seq<char>, scope: Seq<Seq<char>>, types: Seq<Seq<char>>) -> Seq<
    char,
> {
    match generic_split_spec(compact_type_spec(target)) {
        Some((prefix, suffix)) => match resolve_local_spec(prefix, scope, types) {
            Some(p) => p + suffix,
            None => target,
        },
        None => target,
    }
}

/// A path with its first segment replaced, again and again, by the target of the alias
/// it names in the scope `key`, until it names no alias, repeats, or `fuel` runs out;
/// none when the starting path `start` names no alias.
pub open spec fn alias_chain(
    resolved: Seq<char>,
    start: Seq<char>,
    key: Seq<char>,
    scope: Seq<Seq<char>>,
    entries: Seq<AliasEntry>,
    types: Seq<Seq<char>>,
    seen: Seq<Seq<char>>,
    fuel: nat,
) -> Option<Seq<char>>
    decreases fuel,
{
    if seen.contains(resolved) || fuel == 0 {
        Some(resolved)
    } else {
        let i = find_text_from(resolved, path_sep(), 0);
        let first = if i >= 0 {
            resolved.take(i)
        } else {
            resolved
        };
        match lookup_alias_spec(entries, key, first) {
            None => if resolved == start {
                None
            } else {
                Some(resolved)
            },
            Some(target) => {
                let q = qualify_alias_spec(target, scope, types);
                let next = if i >= 0 {
                    q + path_sep() + resolved.skip(i + 2)
                } else {
                    q
                };
                alias_chain(next, start, key, scope, entries, types, seen.push(resolved), (fuel - 1) as nat)
            },
        }
    }
}

/// The path an impl target names through the `use` aliases of the scope it is read in;
/// none when it names no alias.
pub open spec fn resolve_imported_spec(
    path: Seq<char>,
    namespace: Seq<Seq<char>>,
    entries: Seq<AliasEntry>,
    types: Seq<Seq<char>>,
) -> Option<Seq<char>> {
    match alias_walk(trim(path), namespace) {
        None => None,
        Some((scope, p)) => if !scope_has_aliases(entries, scope_key_spec(scope)) {
            None
        } else {
            alias_chain(
                p,
                p,
                scope_key_spec(scope),
                scope,
                entries,
                types,
                Seq::empty(),
                entries.len(),
            )
        },
    }
}


/// The `(scope key, alias, target)` views of alias entries.
pub open spec fn alias_views(v: Seq<(Vec<char>, Vec<char>, Vec<char>)>) -> Seq<AliasEntry> {
    v.map_values(|e: (Vec<char>, Vec<char>, Vec<char>)| (e.0@, e.1@, e.2@))
}

/// Appends the aliases one item declares.
fn aliases_of_item(
    item: &SyntaxItem,
    namespace: &Vec<Vec<char>>,
    entries: &mut Vec<(Vec<char>, Vec<char>, Vec<char>)>,
)
    ensures
        alias_views(final(entries)@) == alias_views(old(entries)@) + aliases_item(
            *item,
            char_views(namespace@),
        ),
    decreases item, 0nat,
{
    let ghost start = alias_views(entries@);
    let kind = text_of(&item.kind);
    if kind_is(&kind, "use_declaration") {
        match &item.text {
            Some(t) => {
                let body = use_body(t.as_str());
                let empty: Vec<char> = Vec::new();
                assert(empty@ =~= Seq::<char>::empty());
                let mut pairs: Vec<(Vec<char>, Vec<char>)> = Vec::new();
                expand_use_tree(&empty, &body, namespace, &mut pairs);
                assert(char_pair_views(pairs@) =~= use_declaration_spec(
                    t@,
                    char_views(namespace@),
                ));
                let ghost pv = char_pair_views(pairs@);
                let key = join_chars(namespace, &separator());
                let mut i: usize = 0;
                while i < pairs.len()
                    invariant
                        i <= pairs@.len(),
                        pv == char_pair_views(pairs@),
                        key@ == scope_key_spec(char_views(namespace@)),
                        alias_views(entries@) == start + Seq::new(
                            i as nat,
                            |j: int| (key@, pv[j].0, pv[j].1),
                        ),
                    decreases pairs@.len() - i,
                {
                    let ghost prev = alias_views(entries@);
                    entries.push((copy_chars(&key), copy_chars(&pairs[i].0), copy_chars(&pairs[i].1)));
                    assert(pv[i as int] == (pairs@[i as int].0@, pairs@[i as int].1@));
                    assert(alias_views(entries@) =~= prev.push((key@, pv[i as int].0, pv[i as int].1)));
                    assert(Seq::new((i + 1) as nat, |j: int| (key@, pv[j].0, pv[j].1)) =~= Seq::new(
                        i as nat,
                        |j: int| (key@, pv[j].0, pv[j].1),
                    ).push((key@, pv[i as int].0, pv[i as int].1)));
                    i += 1;
                }
                assert(aliases_item(*item, char_views(namespace@)) =~= Seq::new(
                    pv.len(),
                    |j: int| (key@, pv[j].0, pv[j].1),
                ));
            },
            None => {
                assert(alias_views(entries@) =~= start + Seq::<AliasEntry>::empty());
            },
        }
    } else if kind_is(&kind, "mod_item") {
        match (&item.name, &item.body) {
            (Some(n), Some(b)) => {
                let mut inner = copy_parts(namespace);
                let ghost before = inner@;
                inner.push(text_of(n));
                assert(char_views(inner@) =~= char_views(before).push(n@));
                aliases_of_list(b, &inner, entries);
            },
            _ => {
                assert(alias_views(entries@) =~= start + Seq::<AliasEntry>::empty());
            },
        }
    } else {
        assert(alias_views(entries@) =~= start + Seq::<AliasEntry>::empty());
    }
}

/// Appends the aliases a list of items declares.
fn aliases_of_list(
    items: &Vec<SyntaxItem>,
    namespace: &Vec<Vec<char>>,
    entries: &mut Vec<(Vec<char>, Vec<char>, Vec<char>)>,
)
    ensures
        alias_views(final(entries)@) == alias_views(old(entries)@) + aliases_spec(
            items@,
            char_views(namespace@),
        ),
    decreases items@, 1nat,
{
    let ghost start = alias_views(entries@);
    let mut i: usize = 0;
    assert(items@.take(0) =~= Seq::<SyntaxItem>::empty());
    assert(start =~= start + aliases_spec(items@.take(0), char_views(namespace@)));
    while i < items.len()
        invariant
            i <= items@.len(),
            alias_views(entries@) == start + aliases_spec(
                items@.take(i as int),
                char_views(namespace@),
            ),
        decreases items@.len() - i,
    {
        aliases_of_item(&items[i], namespace, entries);
        assert(items@.take(i + 1).drop_last() =~= items@.take(i as int));
        assert(items@.take(i + 1).last() == items@[i as int]);
        assert(alias_views(entries@) =~= start + aliases_spec(
            items@.take(i + 1),
            char_views(namespace@),
        ));
        i += 1;
    }
    assert(items@.take(items@.len() as int) =~= items@);
}

/// The `use` aliases the items declare, each with the scope key of its module, in order.
pub fn collect_use_aliases(items: &Vec<SyntaxItem>, namespace: &Vec<Vec<char>>) -> (r: Vec<
    (Vec<char>, Vec<char>, Vec<char>),
>)
    ensures
        alias_views(r@) == aliases_spec(items@, char_views(namespace@)),
{
    let mut entries: Vec<(Vec<char>, Vec<char>, Vec<char>)> = Vec::new();
    aliases_of_list(items, namespace, &mut entries);
    assert(alias_views(entries@) =~= Seq::<AliasEntry>::empty() + aliases_spec(
        items@,
        char_views(namespace@),
    ));
    entries
}


/// The target of the last alias named `alias` in the scope `key`.
fn lookup_alias(entries: &Vec<(Vec<char>, Vec<char>, Vec<char>)>, key: &Vec<char>, alias: &Vec<char>) -> (r:
    Option<Vec<char>>)
    ensures
        opt_view(r) == lookup_alias_spec(alias_views(entries@), key@, alias@),
{
    let ghost ev = alias_views(entries@);
    let mut n: usize = entries.len();
    assert(ev.take(n as int) =~= ev);
    while n > 0
        invariant
            n <= entries@.len(),
            ev == alias_views(entries@),
            lookup_alias_spec(ev, key@, alias@) == lookup_alias_spec(ev.take(n as int), key@, alias@),
        decreases n,
    {
        let e = &entries[n - 1];
        assert(ev.take(n as int).last() == (e.0@, e.1@, e.2@));
        if chars_equal(&e.0, key) && chars_equal(&e.1, alias) {
            return Some(copy_chars(&e.2));
        }
        assert(ev.take(n as int).drop_last() =~= ev.take(n - 1));
        n -= 1;
    }
    None
}

fn scope_has(entries: &Vec<(Vec<char>, Vec<char>, Vec<char>)>, key: &Vec<char>) -> (b: bool)
    ensures
        b == scope_has_aliases(alias_views(entries@), key@),
{
    let ghost ev = alias_views(entries@);
    let mut i: usize = 0;
    while i < entries.len()
        invariant
            i <= entries@.len(),
            ev == alias_views(entries@),
            forall|j: int| 0 <= j < i ==> (#[trigger] ev[j]).0 != key@,
        decreases entries@.len() - i,
    {
        assert(ev[i as int] == (entries@[i as int].0@, entries@[i as int].1@, entries@[i as int].2@));
        if chars_equal(&entries[i].0, key) {
            return true;
        }
        i += 1;
    }
    false
}

/// A path's leading `self`, `super` and `crate` segments applied to the module
/// namespace: the scope the rest is read in, and that rest.
fn alias_scope_and_path(path: &Vec<char>, namespace: &Vec<Vec<char>>) -> (r: Option<
    (Vec<Vec<char>>, Vec<char>),
>)
    ensures
        match (r, alias_walk(trim(path@), char_views(namespace@))) {
            (Some((a, b)), Some((x, y))) => char_views(a@) == x && b@ == y,
            (None, None) => true,
            _ => false,
        },
{
    let (lo, hi) = crate::text::trim_range(path, 0, path.len());
    assert(path@.subrange(0, path@.len() as int) =~= path@);
    let mut rest = slice_chars(path, lo, hi);
    let mut scope = copy_parts(namespace);
    let self_kw = chars_of("self::");
    let super_kw = chars_of("super::");
    let crate_kw = chars_of("crate::");
    loop
        invariant
            self_kw@ == "self::"@,
            super_kw@ == "super::"@,
            crate_kw@ == "crate::"@,
            alias_walk(trim(path@), char_views(namespace@)) == alias_walk(rest@, char_views(scope@)),
        decreases rest@.len(),
    {
        if crate::text::chars_have_prefix(&rest, &self_kw) && self_kw.len() > 0 {
            rest = slice_chars(&rest, self_kw.len(), rest.len());
        } else if crate::text::chars_have_prefix(&rest, &super_kw) && super_kw.len() > 0 {
            if scope.len() == 0 {
                return None;
            }
            let ghost prev = scope@;
            scope.pop();
            assert(char_views(scope@) =~= char_views(prev).drop_last());
            rest = slice_chars(&rest, super_kw.len(), rest.len());
        } else {
            if crate::text::chars_have_prefix(&rest, &crate_kw) {
                scope = Vec::new();
                assert(char_views(scope@) =~= Seq::<Seq<char>>::empty());
                rest = slice_chars(&rest, crate_kw.len(), rest.len());
            }
            if rest.len() == 0 {
                return None;
            }
            return Some((scope, rest));
        }
    }
}

/// An alias target qualified by the alias's scope when that names a defined type.
fn qualify_alias_target(target: &Vec<char>, scope: &Vec<Vec<char>>, types: &Vec<Vec<char>>) -> (r:
    Vec<char>)
    ensures
        r@ == qualify_alias_spec(target@, char_views(scope@), char_views(types@)),
{
    let compact = compact_type_name(target);
    match generic_split(&compact) {
        Some((prefix, suffix)) => match resolve_local_path(&prefix, scope, types) {
            Some(p) => {
                let mut r = p;
                extend_chars(&mut r, &suffix);
                r
            },
            None => copy_chars(target),
        },
        None => copy_chars(target),
    }
}

/// Whether `v` is one of `seen`.
fn was_seen(seen: &Vec<Vec<char>>, v: &Vec<char>) -> (b: bool)
    ensures
        b == char_views(seen@).contains(v@),
{
    has_key(seen, v)
}

/// The path an impl target names through the `use` aliases of the scope it is read in,
/// following aliases of aliases for at most as many steps as there are aliases; none
/// when it names no alias.
pub fn resolve_imported_path(
    path: &Vec<char>,
    namespace: &Vec<Vec<char>>,
    entries: &Vec<(Vec<char>, Vec<char>, Vec<char>)>,
    types: &Vec<Vec<char>>,
) -> (r: Option<Vec<char>>)
    ensures
        opt_view(r) == resolve_imported_spec(
            path@,
            char_views(namespace@),
            alias_views(entries@),
            char_views(types@),
        ),
{
    let (scope, p) = match alias_scope_and_path(path, namespace) {
        Some(found) => found,
        None => {
            return None;
        },
    };
    let key = join_chars(&scope, &separator());
    if !scope_has(entries, &key) {
        return None;
    }
    let ghost ev = alias_views(entries@);
    let ghost sv = char_views(scope@);
    let ghost tv = char_views(types@);
    let sep = separator();
    let mut resolved = copy_chars(&p);
    let mut seen: Vec<Vec<char>> = Vec::new();
    assert(char_views(seen@) =~= Seq::<Seq<char>>::empty());
    let mut fuel: usize = entries.len();
    loop
        invariant
            sep@ == path_sep(),
            ev == alias_views(entries@),
            sv == char_views(scope@),
            tv == char_views(types@),
            key@ == scope_key_spec(sv),
            resolve_imported_spec(path@, char_views(namespace@), ev, tv) == alias_chain(
                resolved@,
                p@,
                key@,
                sv,
                ev,
                tv,
                char_views(seen@),
                fuel as nat,
            ),
        decreases fuel,
    {
        if was_seen(&seen, &resolved) || fuel == 0 {
            return Some(resolved);
        }
        let n = resolved.len();
        let found = find_text(&resolved, &sep, 0);
        let first = match found {
            Some(i) => slice_chars(&resolved, 0, i),
            None => copy_chars(&resolved),
        };
        match lookup_alias(entries, &key, &first) {
            None => {
                if chars_equal(&resolved, &p) {
                    return None;
                }
                return Some(resolved);
            },
            Some(target) => {
                let q = qualify_alias_target(&target, &scope, types);
                let next = match found {
                    Some(i) => {
                        let mut next = q;
                        extend_chars(&mut next, &sep);
                        extend_chars(&mut next, &slice_chars(&resolved, i + 2, n));
                        next
                    },
                    None => q,
                };
                let ghost prev_seen = seen@;
                seen.push(resolved);
                assert(char_views(seen@) =~= char_views(prev_seen).push(
                    seen@[seen@.len() - 1]@,
                ));
                resolved = next;
                fuel -= 1;
            },
        }
    }
}

/// Whether two lists of type keys hold the same keys, whatever their order.
pub open spec fn same_members(a: Seq<Seq<char>>, b: Seq<Seq<char>>) -> bool {
    forall|k: Seq<char>| a.contains(k) == b.contains(k)
}

/// Local resolution reads the type keys only by membership.
proof fn lemma_resolve_local_by_members(
    path: Seq<char>,
    scope: Seq<Seq<char>>,
    t1: Seq<Seq<char>>,
    t2: Seq<Seq<char>>,
)
    requires
        same_members(t1, t2),
    ensures
        resolve_local_spec(path, scope, t1) == resolve_local_spec(path, scope, t2),
    decreases scope.len(),
{
    let candidate = if scope.len() == 0 {
        path
    } else {
        join_with(scope, path_sep()) + path_sep() + path
    };
    assert(t1.contains(type_symbol_key(candidate)) == t2.contains(type_symbol_key(candidate)));
    if scope.len() > 0 {
        lemma_resolve_local_by_members(path, scope.drop_last(), t1, t2);
    }
}

/// Following aliases reads the type keys only by membership.
proof fn lemma_alias_chain_by_members(
    resolved: Seq<char>,
    start: Seq<char>,
    key: Seq<char>,
    scope: Seq<Seq<char>>,
    entries: Seq<AliasEntry>,
    t1: Seq<Seq<char>>,
    t2: Seq<Seq<char>>,
    seen: Seq<Seq<char>>,
    fuel: nat,
)
    requires
        same_members(t1, t2),
    ensures
        alias_chain(resolved, start, key, scope, entries, t1, seen, fuel) == alias_chain(
            resolved,
            start,
            key,
            scope,
            entries,
            t2,
            seen,
            fuel,
        ),
    decreases fuel,
{
    if !(seen.contains(resolved) || fuel == 0) {
        let i = find_text_from(resolved, path_sep(), 0);
        let first = if i >= 0 {
            resolved.take(i)
        } else {
            resolved
        };
        match lookup_alias_spec(entries, key, first) {
            None => {},
            Some(target) => {
                match generic_split_spec(compact_type_spec(target)) {
                    Some((prefix, _)) => lemma_resolve_local_by_members(prefix, scope, t1, t2),
                    None => {},
                }
                let q = qualify_alias_spec(target, scope, t1);
                let next = if i >= 0 {
                    q + path_sep() + resolved.skip(i + 2)
                } else {
                    q
                };
                lemma_alias_chain_by_members(
                    next,
                    start,
                    key,
                    scope,
                    entries,
                    t1,
                    t2,
                    seen.push(resolved),
                    (fuel - 1) as nat,
                );
            },
        }
    }
}

/// The name and owner key of an impl target depend on the type keys only by membership.
pub proof fn lemma_impl_type_by_members(
    text: Seq<char>,
    namespace: Seq<Seq<char>>,
    t1: Seq<Seq<char>>,
    t2: Seq<Seq<char>>,
    aliases: Seq<AliasEntry>,
)
    requires
        same_members(t1, t2),
    ensures
        impl_type_spec(text, namespace, t1, aliases) == impl_type_spec(text, namespace, t2, aliases),
{
    let compact = compact_type_spec(text);
    match generic_split_spec(compact) {
        Some((prefix, _)) => {
            match alias_walk(trim(prefix), namespace) {
                Some((scope, p)) => {
                    lemma_alias_chain_by_members(
                        p,
                        p,
                        scope_key_spec(scope),
                        scope,
                        aliases,
                        t1,
                        t2,
                        Seq::empty(),
                        aliases.len(),
                    );
                },
                None => {},
            }
            lemma_resolve_local_by_members(prefix, namespace, t1, t2);
            match canonical_path_spec(prefix, namespace, t1, aliases) {
                Some(c) => {
                    assert(t1.contains(type_symbol_key(c)) == t2.contains(type_symbol_key(c)));
                },
                None => {},
            }
        },
        None => {},
    }
}

/// The whitespace tokens of a text with no whitespace: the text itself.
proof fn lemma_ws_tokens_plain(w: Seq<char>)
    requires
        w.len() > 0,
        forall|k: int| 0 <= k < w.len() ==> !is_space(#[trigger] w[k]),
    ensures
        ws_tokens(w) == seq![w],
    decreases w.len(),
{
    if w.len() == 1 {
        assert(w.drop_last() =~= Seq::<char>::empty());
        assert(ws_tokens(w.drop_last()) == Seq::<Seq<char>>::empty());
        assert(!is_space(w.last()));
        assert(ws_tokens(w) == Seq::<Seq<char>>::empty().push(seq![w.last()]));
        assert(seq![w.last()] =~= w);
        assert(Seq::<Seq<char>>::empty().push(seq![w.last()]) =~= seq![w]);
    } else {
        assert forall|k: int| 0 <= k < w.drop_last().len() implies !is_space(
            #[trigger] w.drop_last()[k],
        ) by {
            assert(w.drop_last()[k] == w[k]);
        }
        lemma_ws_tokens_plain(w.drop_last());
        assert(!is_space(w.last()));
        assert(!is_space(w[w.len() - 2]));
        let rest = seq![w.drop_last()];
        assert(rest.last() == w.drop_last());
        assert(w.drop_last().push(w.last()) =~= w);
        assert(ws_tokens(w) == rest.update(rest.len() - 1, rest.last().push(w.last())));
        assert(rest.update(rest.len() - 1, rest.last().push(w.last())) =~= seq![w]);
    }
}

/// A text with no `:` holds no `::` from position `i` on.
proof fn lemma_no_path_sep(w: Seq<char>, i: int)
    requires
        0 <= i,
        forall|k: int| 0 <= k < w.len() ==> w[k] != ':',
    ensures
        find_text_from(w, path_sep(), i) == -1,
    decreases w.len() + 1 - i,
{
    if i + 2 <= w.len() {
        assert(!crate::text::occurs_at(w, path_sep(), i)) by {
            if crate::text::occurs_at(w, path_sep(), i) {
                assert(w.subrange(i, i + 2)[0] == w[i]);
            }
        }
        lemma_no_path_sep(w, i + 1);
    }
}

/// An impl target spelled as a plain name at the crate root, with no `use` alias in the
/// file, is known by that name and belongs to the type symbol `type:name` when the file
/// defines such a type.
pub proof fn lemma_plain_impl_target(w: Seq<char>, types: Seq<Seq<char>>)
    requires
        w.len() > 0,
        forall|k: int| 0 <= k < w.len() ==> !is_space(#[trigger] w[k]) && w[k] != '<' && w[k] != ':',
        w != "self"@ && w != "super"@ && w != "crate"@,
        types.contains(type_symbol_key(w)),
    ensures
        impl_type_spec(w, Seq::empty(), types, Seq::empty()) == (w, Some(type_symbol_key(w))),
{
    lemma_ws_tokens_plain(w);
    let tokens = seq![w];
    assert(tokens.drop_last() =~= Seq::<Seq<char>>::empty());
    assert(tokens.last() == w);
    assert(join_tokens(Seq::<Seq<char>>::empty()) == Seq::<char>::empty());
    assert(join_tokens(tokens) == join_tokens(tokens.drop_last()) + tokens.last());
    assert(join_tokens(tokens) =~= w);
    assert(compact_type_spec(w) == w);
    crate::text::lemma_first_index_bounds(w, '<');
    assert(first_index(w, '<') < 0);
    assert(generic_split_spec(w) == Some((w, Seq::<char>::empty())));
    assert(!scope_has_aliases(Seq::<AliasEntry>::empty(), scope_key_spec(Seq::empty())));
    assert(resolve_imported_spec(w, Seq::empty(), Seq::empty(), types) is None) by {
        match alias_walk(trim(w), Seq::empty()) {
            Some((scope, _)) => {
                assert(!scope_has_aliases(Seq::<AliasEntry>::empty(), scope_key_spec(scope)));
            },
            None => {},
        }
    }
    lemma_no_path_sep(w, 0);
    assert(split_text(w, path_sep()) == seq![w]);
    assert(explicit_prefix_spec(seq![w], Seq::empty()) is None);
    assert(resolve_local_spec(w, Seq::empty(), types) == Some(w));
    assert(w + Seq::<char>::empty() =~= w);
}

} // verus!
