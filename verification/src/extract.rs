//! Symbols of a Rust source file: modules, types, functions, methods and constants, each
//! with a stable key, its owner and its extent.

use vstd::prelude::*;

use crate::error::{GraphError, GraphErrorView};
use crate::graph::{
    check_key_is_not_blank, check_name_is_not_blank, is_blank, SymbolKind, SymbolOwner,
};
use crate::ids::{symbol_hash, FileId, SymbolId};
use crate::path::RelativePath;
use crate::layout::{path_segments, rust_layout_spec, rust_source_layout};
use crate::resolve::{
    alias_views, aliases_spec, collect_use_aliases, impl_type, impl_type_spec,
    lemma_impl_type_by_members, lemma_plain_impl_target, local_types, local_types_item, local_types_spec,
    opt_view as opt_chars_view, same_members, AliasEntry,
};
use crate::syntax::{SourceSpan, SyntaxItem};
use crate::text::{
    char_views, chars_equal, chars_of, extend_chars, join_chars, join_with, split_once_spec,
    string_from_chars,
};
use crate::use_tree::path_sep;

verus! {

/// A symbol found in a source file, before it is placed in a graph.
#[derive(Debug)]
pub struct ExtractedSymbol {
    pub id: SymbolId,
    pub file_id: FileId,
    pub owner: SymbolOwner,
    pub relative_path: RelativePath,
    pub kind: SymbolKind,
    pub display_name: String,
    pub stable_key: String,
    pub span: SourceSpan,
}

impl ExtractedSymbol {
    /// A symbol of `file_id` with an identifier derived from its file and stable key;
    /// refused when its name or stable key is blank.
    pub fn new(
        file_id: FileId,
        owner: SymbolOwner,
        relative_path: RelativePath,
        kind: SymbolKind,
        display_name: &str,
        stable_key: String,
        span: SourceSpan,
    ) -> (r: Result<Self, GraphError>)
        ensures
            is_blank(display_name@) ==> (r matches Err(e) && e@ == (GraphErrorView::EmptyName {
                entity: "symbol"@,
            })),
            !is_blank(display_name@) && is_blank(stable_key@) ==> (r matches Err(e) && e@
                == (GraphErrorView::EmptyStableKey { entity: "symbol"@ })),
            !is_blank(display_name@) && !is_blank(stable_key@) ==> (r matches Ok(s) && s.id@
                == symbol_hash(file_id@, stable_key@) && s.file_id == file_id && s.owner == owner
                && s.relative_path@ == relative_path@ && s.kind == kind && s.display_name@
                == display_name@ && s.stable_key@ == stable_key@ && s.span == span),
    {
        check_name_is_not_blank("symbol", display_name)?;
        check_key_is_not_blank("symbol", stable_key.as_str())?;
        Ok(
            ExtractedSymbol {
                id: SymbolId::new(file_id, stable_key.as_str()),
                file_id,
                owner,
                relative_path,
                kind,
                display_name: display_name.to_owned(),
                stable_key,
                span,
            },
        )
    }
}

/// What extraction records of a symbol: its kind, the identifier of the symbol that owns
/// it (none when the file does), its name, its stable key and its extent.
pub struct SymbolEntry {
    pub kind: SymbolKind,
    pub owner: Option<u64>,
    pub name: Seq<char>,
    pub key: Seq<char>,
    pub span: SourceSpan,
}

/// Where extraction stands in a file: the file's identifier, the module namespace, the
/// identifier of the enclosing owner symbol (none when the file owns what it defines)
/// and, inside a trait or impl, the owner name that member keys are qualified with.
pub struct ContextView {
    pub file: u64,
    pub namespace: Seq<Seq<char>>,
    pub owner: Option<u64>,
    pub member: Option<Seq<char>>,
}

/// The context at the top of a file: the namespace its path gives it, and the symbol
/// that owns the file's definitions, if any.
pub open spec fn file_context(path: Seq<char>, file: u64, owner: Option<u64>) -> ContextView {
    namespace_context(rust_layout_spec(path_segments(path)).1, file, owner)
}

/// The context of a file's top-level items under the module path `namespace`.
pub open spec fn namespace_context(namespace: Seq<Seq<char>>, file: u64, owner: Option<u64>) -> ContextView {
    ContextView { file, namespace, owner, member: None }
}

/// The keys of a table of type owners.
pub open spec fn type_keys(types: Seq<(Seq<char>, u64)>) -> Seq<Seq<char>> {
    types.map_values(|p: (Seq<char>, u64)| p.0)
}

/// The identifier of the last type symbol recorded under `key`.
pub open spec fn type_owner_spec(types: Seq<(Seq<char>, u64)>, key: Seq<char>) -> Option<u64>
    decreases types.len(),
{
    if types.len() == 0 {
        None
    } else if types.last().0 == key {
        Some(types.last().1)
    } else {
        type_owner_spec(types.drop_last(), key)
    }
}

/// A name qualified by a module namespace with `::`.
pub open spec fn join_path_spec(namespace: Seq<Seq<char>>, name: Seq<char>) -> Seq<char> {
    if namespace.len() == 0 {
        name
    } else {
        join_with(namespace, path_sep()) + path_sep() + name
    }
}

/// The stable key of a module.
pub open spec fn module_key(ctx: ContextView, name: Seq<char>) -> Seq<char> {
    "module:"@ + join_path_spec(ctx.namespace, name)
}

/// The stable key of a type: an associated type or type alias inside a trait or impl is
/// qualified by the owner name, any other type by the module namespace.
pub open spec fn type_key(kind: Seq<char>, ctx: ContextView, name: Seq<char>) -> Seq<char> {
    match ctx.member {
        Some(owner) => if kind == "associated_type"@ || kind == "type_item"@ {
            "type:"@ + owner + path_sep() + name
        } else {
            "type:"@ + join_path_spec(ctx.namespace, name)
        },
        None => "type:"@ + join_path_spec(ctx.namespace, name),
    }
}

/// The kind and stable key of a function: a method inside a trait or impl, a free
/// function elsewhere.
pub open spec fn function_entry(ctx: ContextView, name: Seq<char>) -> (SymbolKind, Seq<char>) {
    match ctx.member {
        Some(owner) => (SymbolKind::Method, "method:"@ + owner + path_sep() + name),
        None => (SymbolKind::Function, "fn:"@ + join_path_spec(ctx.namespace, name)),
    }
}

/// The stable key of a constant or static.
pub open spec fn constant_key(ctx: ContextView, name: Seq<char>) -> Seq<char> {
    match ctx.member {
        Some(owner) => "const:"@ + owner + path_sep() + name,
        None => "const:"@ + join_path_spec(ctx.namespace, name),
    }
}

/// The part of a stable key after its first `:`, or all of it.
pub open spec fn stable_owner_name_spec(key: Seq<char>) -> Seq<char> {
    match split_once_spec(key, ':') {
        Some((_, rest)) => rest,
        None => key,
    }
}

/// The owner name of an impl block and the key of its owner symbol: the name its type is
/// known by, prefixed by the trait's name and ` for ` for a trait impl; the owner symbol
/// is the type's symbol when the file defines that type.
pub open spec fn impl_owner_spec(
    type_text: Seq<char>,
    trait_text: Option<Seq<char>>,
    namespace: Seq<Seq<char>>,
    types: Seq<Seq<char>>,
    aliases: Seq<AliasEntry>,
) -> (Seq<char>, Option<Seq<char>>) {
    let (self_name, owner_key) = impl_type_spec(type_text, namespace, types, aliases);
    match trait_text {
        Some(t) => (
            impl_type_spec(t, namespace, types, aliases).0 + " for "@ + self_name,
            owner_key,
        ),
        None => (self_name, owner_key),
    }
}

/// The entries after recording a symbol, unless its name or key is blank.
pub open spec fn push_spec(
    entries: Seq<SymbolEntry>,
    ctx: ContextView,
    kind: SymbolKind,
    name: Seq<char>,
    key: Seq<char>,
    span: SourceSpan,
) -> Seq<SymbolEntry> {
    if is_blank(name) || is_blank(key) {
        entries
    } else {
        entries.push(SymbolEntry { kind, owner: ctx.owner, name, key, span })
    }
}

/// Whether a grammar kind is one of the type definitions.
pub open spec fn is_type_kind(kind: Seq<char>) -> bool {
    kind == "struct_item"@ || kind == "enum_item"@ || kind == "union_item"@ || kind
        == "trait_item"@ || kind == "type_item"@ || kind == "associated_type"@
}

/// The text views of an optional string.
pub open spec fn opt_view(s: Option<String>) -> Option<Seq<char>> {
    match s {
        Some(t) => Some(t@),
        None => None,
    }
}

/// The entries after visiting one item in `ctx`: a module, type, function or constant
/// with a name is recorded; the bodies of modules, traits and impls are visited in the
/// context they open.
pub open spec fn visit_item_spec(
    item: SyntaxItem,
    ctx: ContextView,
    types: Seq<(Seq<char>, u64)>,
    aliases: Seq<AliasEntry>,
    entries: Seq<SymbolEntry>,
) -> Seq<SymbolEntry>
    decreases item, 0nat,
{
    let kind = item.kind@;
    if kind == "mod_item"@ {
        match item.name {
            None => entries,
            Some(n) => {
                let key = module_key(ctx, n@);
                let recorded = push_spec(entries, ctx, SymbolKind::Module, n@, key, item.span);
                match item.body {
                    Some(b) => visit_list_spec(
                        b@,
                        ContextView {
                            file: ctx.file,
                            namespace: ctx.namespace.push(n@),
                            owner: Some(symbol_hash(ctx.file, key)),
                            member: None,
                        },
                        types,
                        aliases,
                        recorded,
                    ),
                    None => recorded,
                }
            },
        }
    } else if is_type_kind(kind) {
        match item.name {
            None => entries,
            Some(n) => {
                let key = type_key(kind, ctx, n@);
                let recorded = push_spec(entries, ctx, SymbolKind::Type, n@, key, item.span);
                match item.body {
                    Some(b) => if kind == "trait_item"@ {
                        visit_list_spec(
                            b@,
                            ContextView {
                                file: ctx.file,
                                namespace: ctx.namespace,
                                owner: Some(symbol_hash(ctx.file, key)),
                                member: Some(stable_owner_name_spec(key)),
                            },
                            types,
                            aliases,
                            recorded,
                        )
                    } else {
                        recorded
                    },
                    None => recorded,
                }
            },
        }
    } else if kind == "impl_item"@ {
        match item.body {
            Some(b) => match item.type_text {
                Some(t) => {
                    let (owner_name, owner_key) = impl_owner_spec(
                        t@,
                        opt_view(item.trait_text),
                        ctx.namespace,
                        type_keys(types),
                        aliases,
                    );
                    let nesting = match owner_key {
                        Some(k) => type_owner_spec(types, k),
                        None => None,
                    };
                    visit_list_spec(
                        b@,
                        ContextView {
                            file: ctx.file,
                            namespace: ctx.namespace,
                            owner: nesting,
                            member: Some(owner_name),
                        },
                        types,
                        aliases,
                        entries,
                    )
                },
                None => entries,
            },
            None => entries,
        }
    } else if kind == "function_item"@ || kind == "function_signature_item"@ {
        match item.name {
            None => entries,
            Some(n) => {
                let (k, key) = function_entry(ctx, n@);
                push_spec(entries, ctx, k, n@, key, item.span)
            },
        }
    } else if kind == "const_item"@ || kind == "static_item"@ {
        match item.name {
            None => entries,
            Some(n) => push_spec(
                entries,
                ctx,
                SymbolKind::Constant,
                n@,
                constant_key(ctx, n@),
                item.span,
            ),
        }
    } else {
        entries
    }
}

/// The entries after visiting a list of items in order.
pub open spec fn visit_list_spec(
    items: Seq<SyntaxItem>,
    ctx: ContextView,
    types: Seq<(Seq<char>, u64)>,
    aliases: Seq<AliasEntry>,
    entries: Seq<SymbolEntry>,
) -> Seq<SymbolEntry>
    decreases items, 1nat,
{
    if items.len() == 0 {
        entries
    } else {
        visit_item_spec(
            items.last(),
            ctx,
            types,
            aliases,
            visit_list_spec(items.drop_last(), ctx, types, aliases, entries),
        )
    }
}


/// Visiting an item after earlier entries adds to them what visiting it alone gives.
proof fn lemma_visit_item_appends(
    item: SyntaxItem,
    ctx: ContextView,
    types: Seq<(Seq<char>, u64)>,
    aliases: Seq<AliasEntry>,
    entries: Seq<SymbolEntry>,
)
    ensures
        visit_item_spec(item, ctx, types, aliases, entries) == entries + visit_item_spec(
            item,
            ctx,
            types,
            aliases,
            Seq::empty(),
        ),
    decreases item, 0nat,
{
    let none = Seq::<SymbolEntry>::empty();
    let kind = item.kind@;
    if kind == "mod_item"@ {
        match item.name {
            None => {
                assert(entries + none =~= entries);
            },
            Some(n) => {
                let key = module_key(ctx, n@);
                let recorded = push_spec(entries, ctx, SymbolKind::Module, n@, key, item.span);
                let alone = push_spec(none, ctx, SymbolKind::Module, n@, key, item.span);
                assert(recorded =~= entries + alone);
                match item.body {
                    Some(b) => {
                        let inner = ContextView {
                            file: ctx.file,
                            namespace: ctx.namespace.push(n@),
                            owner: Some(symbol_hash(ctx.file, key)),
                            member: None,
                        };
                        lemma_visit_list_appends(b@, inner, types, aliases, recorded);
                        lemma_visit_list_appends(b@, inner, types, aliases, alone);
                        let rest = visit_list_spec(b@, inner, types, aliases, none);
                        assert(recorded + rest =~= entries + (alone + rest));
                    },
                    None => {},
                }
            },
        }
    } else if is_type_kind(kind) {
        match item.name {
            None => {
                assert(entries + none =~= entries);
            },
            Some(n) => {
                let key = type_key(kind, ctx, n@);
                let recorded = push_spec(entries, ctx, SymbolKind::Type, n@, key, item.span);
                let alone = push_spec(none, ctx, SymbolKind::Type, n@, key, item.span);
                assert(recorded =~= entries + alone);
                match item.body {
                    Some(b) => if kind == "trait_item"@ {
                        let inner = ContextView {
                            file: ctx.file,
                            namespace: ctx.namespace,
                            owner: Some(symbol_hash(ctx.file, key)),
                            member: Some(stable_owner_name_spec(key)),
                        };
                        lemma_visit_list_appends(b@, inner, types, aliases, recorded);
                        lemma_visit_list_appends(b@, inner, types, aliases, alone);
                        let rest = visit_list_spec(b@, inner, types, aliases, none);
                        assert(recorded + rest =~= entries + (alone + rest));
                    },
                    None => {},
                }
            },
        }
    } else if kind == "impl_item"@ {
        match item.body {
            Some(b) => match item.type_text {
                Some(t) => {
                    let (owner_name, owner_key) = impl_owner_spec(
                        t@,
                        opt_view(item.trait_text),
                        ctx.namespace,
                        type_keys(types),
                        aliases,
                    );
                    let nesting = match owner_key {
                        Some(k) => type_owner_spec(types, k),
                        None => None,
                    };
                    let inner = ContextView {
                        file: ctx.file,
                        namespace: ctx.namespace,
                        owner: nesting,
                        member: Some(owner_name),
                    };
                    lemma_visit_list_appends(b@, inner, types, aliases, entries);
                },
                None => {
                    assert(entries + none =~= entries);
                },
            },
            None => {
                assert(entries + none =~= entries);
            },
        }
    } else if kind == "function_item"@ || kind == "function_signature_item"@ {
        match item.name {
            None => {
                assert(entries + none =~= entries);
            },
            Some(n) => {
                let (k, key) = function_entry(ctx, n@);
                assert(push_spec(entries, ctx, k, n@, key, item.span) =~= entries + push_spec(
                    none,
                    ctx,
                    k,
                    n@,
                    key,
                    item.span,
                ));
            },
        }
    } else if kind == "const_item"@ || kind == "static_item"@ {
        match item.name {
            None => {
                assert(entries + none =~= entries);
            },
            Some(n) => {
                let key = constant_key(ctx, n@);
                assert(push_spec(entries, ctx, SymbolKind::Constant, n@, key, item.span) =~= entries
                    + push_spec(none, ctx, SymbolKind::Constant, n@, key, item.span));
            },
        }
    } else {
        assert(entries + none =~= entries);
    }
}

/// Visiting a list after earlier entries adds to them what visiting it alone gives.
proof fn lemma_visit_list_appends(
    items: Seq<SyntaxItem>,
    ctx: ContextView,
    types: Seq<(Seq<char>, u64)>,
    aliases: Seq<AliasEntry>,
    entries: Seq<SymbolEntry>,
)
    ensures
        visit_list_spec(items, ctx, types, aliases, entries) == entries + visit_list_spec(
            items,
            ctx,
            types,
            aliases,
            Seq::empty(),
        ),
    decreases items, 1nat,
{
    let none = Seq::<SymbolEntry>::empty();
    if items.len() == 0 {
        assert(entries + none =~= entries);
    } else {
        lemma_visit_list_appends(items.drop_last(), ctx, types, aliases, entries);
        let mid = visit_list_spec(items.drop_last(), ctx, types, aliases, entries);
        let mid0 = visit_list_spec(items.drop_last(), ctx, types, aliases, none);
        lemma_visit_item_appends(items.last(), ctx, types, aliases, mid);
        lemma_visit_item_appends(items.last(), ctx, types, aliases, mid0);
        let last = visit_item_spec(items.last(), ctx, types, aliases, none);
        assert(mid + last =~= entries + (mid0 + last));
    }
}

/// Visiting `a` then `b` is visiting `a + b`.
proof fn lemma_visit_list_concat(
    a: Seq<SyntaxItem>,
    b: Seq<SyntaxItem>,
    ctx: ContextView,
    types: Seq<(Seq<char>, u64)>,
    aliases: Seq<AliasEntry>,
    entries: Seq<SymbolEntry>,
)
    ensures
        visit_list_spec(a + b, ctx, types, aliases, entries) == visit_list_spec(
            b,
            ctx,
            types,
            aliases,
            visit_list_spec(a, ctx, types, aliases, entries),
        ),
    decreases b.len(),
{
    if b.len() == 0 {
        assert(a + b =~= a);
    } else {
        lemma_visit_list_concat(a, b.drop_last(), ctx, types, aliases, entries);
        assert((a + b).drop_last() =~= a + b.drop_last());
        assert((a + b).last() == b.last());
    }
}

/// The entries a block of declarations gives do not depend on its neighbours: with the
/// file's type table and aliases fixed, visiting `before + block + after` gives the entries
/// of `before`, then those of `block`, then those of `after`, each visited alone; so
/// swapping two blocks of declarations keeps every entry (its key, kind and owner), only
/// in another order.
pub proof fn lemma_block_entries_independent(
    before: Seq<SyntaxItem>,
    block: Seq<SyntaxItem>,
    after: Seq<SyntaxItem>,
    ctx: ContextView,
    types: Seq<(Seq<char>, u64)>,
    aliases: Seq<AliasEntry>,
)
    ensures
        visit_list_spec(before + block + after, ctx, types, aliases, Seq::empty()) == visit_list_spec(
            before,
            ctx,
            types,
            aliases,
            Seq::empty(),
        ) + visit_list_spec(block, ctx, types, aliases, Seq::empty()) + visit_list_spec(
            after,
            ctx,
            types,
            aliases,
            Seq::empty(),
        ),
        visit_list_spec(before + block + after, ctx, types, aliases, Seq::empty()).to_multiset()
            == visit_list_spec(before + after + block, ctx, types, aliases, Seq::empty()).to_multiset(),
{
    let none = Seq::<SymbolEntry>::empty();
    let l = |s: Seq<SyntaxItem>| visit_list_spec(s, ctx, types, aliases, none);
    lemma_visit_list_concat(before + block, after, ctx, types, aliases, none);
    lemma_visit_list_concat(before, block, ctx, types, aliases, none);
    lemma_visit_list_appends(block, ctx, types, aliases, l(before));
    lemma_visit_list_appends(after, ctx, types, aliases, l(before + block));
    lemma_visit_list_concat(before + after, block, ctx, types, aliases, none);
    lemma_visit_list_concat(before, after, ctx, types, aliases, none);
    lemma_visit_list_appends(after, ctx, types, aliases, l(before));
    lemma_visit_list_appends(block, ctx, types, aliases, l(before + after));
    let (x, m, y) = (l(before), l(block), l(after));
    assert(l(before + block + after) =~= x + m + y);
    assert(l(before + after + block) =~= x + y + m);
    vstd::seq_lib::lemma_multiset_commutative(x + m, y);
    vstd::seq_lib::lemma_multiset_commutative(x, m);
    vstd::seq_lib::lemma_multiset_commutative(x + y, m);
    vstd::seq_lib::lemma_multiset_commutative(x, y);
    assert(x.to_multiset().add(m.to_multiset()).add(y.to_multiset()) =~= x.to_multiset().add(
        y.to_multiset(),
    ).add(m.to_multiset()));
}

/// Whether two type tables give the same answers: the same keys, whatever their order,
/// and the same symbol for each key.
pub open spec fn same_type_answers(t1: Seq<(Seq<char>, u64)>, t2: Seq<(Seq<char>, u64)>) -> bool {
    &&& same_members(type_keys(t1), type_keys(t2))
    &&& forall|k: Seq<char>| type_owner_spec(t1, k) == type_owner_spec(t2, k)
}

/// Visiting an item reads the type table only through its answers.
proof fn lemma_visit_item_by_answers(
    item: SyntaxItem,
    ctx: ContextView,
    t1: Seq<(Seq<char>, u64)>,
    t2: Seq<(Seq<char>, u64)>,
    aliases: Seq<AliasEntry>,
    entries: Seq<SymbolEntry>,
)
    requires
        same_type_answers(t1, t2),
    ensures
        visit_item_spec(item, ctx, t1, aliases, entries) == visit_item_spec(
            item,
            ctx,
            t2,
            aliases,
            entries,
        ),
    decreases item, 0nat,
{
    let kind = item.kind@;
    if kind == "mod_item"@ {
        match item.name {
            Some(n) => {
                let key = module_key(ctx, n@);
                let recorded = push_spec(entries, ctx, SymbolKind::Module, n@, key, item.span);
                match item.body {
                    Some(b) => {
                        let inner = ContextView {
                            file: ctx.file,
                            namespace: ctx.namespace.push(n@),
                            owner: Some(symbol_hash(ctx.file, key)),
                            member: None,
                        };
                        lemma_visit_list_by_answers(b@, inner, t1, t2, aliases, recorded);
                    },
                    None => {},
                }
            },
            None => {},
        }
    } else if is_type_kind(kind) {
        match item.name {
            Some(n) => {
                let key = type_key(kind, ctx, n@);
                let recorded = push_spec(entries, ctx, SymbolKind::Type, n@, key, item.span);
                match item.body {
                    Some(b) => if kind == "trait_item"@ {
                        let inner = ContextView {
                            file: ctx.file,
                            namespace: ctx.namespace,
                            owner: Some(symbol_hash(ctx.file, key)),
                            member: Some(stable_owner_name_spec(key)),
                        };
                        lemma_visit_list_by_answers(b@, inner, t1, t2, aliases, recorded);
                    },
                    None => {},
                }
            },
            None => {},
        }
    } else if kind == "impl_item"@ {
        match item.body {
            Some(b) => match item.type_text {
                Some(t) => {
                    lemma_impl_type_by_members(t@, ctx.namespace, type_keys(t1), type_keys(t2), aliases);
                    match opt_view(item.trait_text) {
                        Some(tr) => lemma_impl_type_by_members(
                            tr,
                            ctx.namespace,
                            type_keys(t1),
                            type_keys(t2),
                            aliases,
                        ),
                        None => {},
                    }
                    let (owner_name, owner_key) = impl_owner_spec(
                        t@,
                        opt_view(item.trait_text),
                        ctx.namespace,
                        type_keys(t1),
                        aliases,
                    );
                    let nesting = match owner_key {
                        Some(k) => type_owner_spec(t1, k),
                        None => None,
                    };
                    let inner = ContextView {
                        file: ctx.file,
                        namespace: ctx.namespace,
                        owner: nesting,
                        member: Some(owner_name),
                    };
                    lemma_visit_list_by_answers(b@, inner, t1, t2, aliases, entries);
                },
                None => {},
            },
            None => {},
        }
    }
}

/// Visiting a list reads the type table only through its answers.
proof fn lemma_visit_list_by_answers(
    items: Seq<SyntaxItem>,
    ctx: ContextView,
    t1: Seq<(Seq<char>, u64)>,
    t2: Seq<(Seq<char>, u64)>,
    aliases: Seq<AliasEntry>,
    entries: Seq<SymbolEntry>,
)
    requires
        same_type_answers(t1, t2),
    ensures
        visit_list_spec(items, ctx, t1, aliases, entries) == visit_list_spec(
            items,
            ctx,
            t2,
            aliases,
            entries,
        ),
    decreases items, 1nat,
{
    if items.len() > 0 {
        lemma_visit_list_by_answers(items.drop_last(), ctx, t1, t2, aliases, entries);
        lemma_visit_item_by_answers(
            items.last(),
            ctx,
            t1,
            t2,
            aliases,
            visit_list_spec(items.drop_last(), ctx, t1, aliases, entries),
        );
    }
}

/// The aliases of a list of items are those of its first part, then those of the rest.
proof fn lemma_aliases_concat(a: Seq<SyntaxItem>, b: Seq<SyntaxItem>, namespace: Seq<Seq<char>>)
    ensures
        aliases_spec(a + b, namespace) == aliases_spec(a, namespace) + aliases_spec(b, namespace),
    decreases b.len(),
{
    if b.len() == 0 {
        assert(a + b =~= a);
        assert(aliases_spec(a, namespace) + aliases_spec(b, namespace) =~= aliases_spec(a, namespace));
    } else {
        lemma_aliases_concat(a, b.drop_last(), namespace);
        assert((a + b).drop_last() =~= a + b.drop_last());
        assert((a + b).last() == b.last());
        assert(aliases_spec(a + b, namespace) =~= aliases_spec(a, namespace) + aliases_spec(
            b,
            namespace,
        ));
    }
}

/// Visiting `a + b` alone gives the entries of `a` alone, then those of `b` alone.
proof fn lemma_visit_list_split(
    a: Seq<SyntaxItem>,
    b: Seq<SyntaxItem>,
    ctx: ContextView,
    types: Seq<(Seq<char>, u64)>,
    aliases: Seq<AliasEntry>,
)
    ensures
        visit_list_spec(a + b, ctx, types, aliases, Seq::empty()) == visit_list_spec(
            a,
            ctx,
            types,
            aliases,
            Seq::empty(),
        ) + visit_list_spec(b, ctx, types, aliases, Seq::empty()),
{
    lemma_visit_list_concat(a, b, ctx, types, aliases, Seq::empty());
    lemma_visit_list_appends(
        b,
        ctx,
        types,
        aliases,
        visit_list_spec(a, ctx, types, aliases, Seq::empty()),
    );
}

/// Declaration order does not change a file's symbols: swapping two adjacent blocks of
/// top-level declarations that hold no `use` declaration leaves the file's entries (each
/// symbol's key, kind, owner and name) the same, only listed in another order. Impl
/// members keep their owners whether the type is declared before or after the impl.
pub proof fn lemma_file_entries_ignore_declaration_order(
    before: Seq<SyntaxItem>,
    first: Seq<SyntaxItem>,
    second: Seq<SyntaxItem>,
    after: Seq<SyntaxItem>,
    path: Seq<char>,
    file: u64,
)
    requires
        aliases_spec(first, rust_layout_spec(path_segments(path)).1).len() == 0,
        aliases_spec(second, rust_layout_spec(path_segments(path)).1).len() == 0,
    ensures
        visit_list_spec(
            before + first + second + after,
            file_context(path, file, None),
            file_types(before + first + second + after, path, file),
            file_aliases(before + first + second + after, path),
            Seq::empty(),
        ).to_multiset() == visit_list_spec(
            before + second + first + after,
            file_context(path, file, None),
            file_types(before + second + first + after, path, file),
            file_aliases(before + second + first + after, path),
            Seq::empty(),
        ).to_multiset(),
{
    let ns = rust_layout_spec(path_segments(path)).1;
    let ctx = file_context(path, file, None);
    let i1 = before + first + second + after;
    let i2 = before + second + first + after;
    let t1 = file_types(i1, path, file);
    let t2 = file_types(i2, path, file);
    // The two orders give tables with the same answers.
    let lt = |s: Seq<SyntaxItem>| local_types_spec(s, ns);
    lemma_local_types_concat(before + first + second, after, ns);
    lemma_local_types_concat(before + first, second, ns);
    lemma_local_types_concat(before, first, ns);
    lemma_local_types_concat(before + second + first, after, ns);
    lemma_local_types_concat(before + second, first, ns);
    lemma_local_types_concat(before, second, ns);
    let k1 = local_types_spec(i1, ns);
    let k2 = local_types_spec(i2, ns);
    assert(k1 =~= lt(before) + lt(first) + lt(second) + lt(after));
    assert(k2 =~= lt(before) + lt(second) + lt(first) + lt(after));
    assert(type_keys(t1) =~= k1);
    assert(type_keys(t2) =~= k2);
    assert forall|key: Seq<char>| k1.contains(key) == k2.contains(key) by {
        let (lb, lf, ls, la) = (lt(before), lt(first), lt(second), lt(after));
        if k1.contains(key) {
            let i = choose|i: int| 0 <= i < k1.len() && k1[i] == key;
            if i < lb.len() {
                assert(k2[i] == key);
            } else if i < lb.len() + lf.len() {
                assert(k2[i + ls.len()] == key);
            } else if i < lb.len() + lf.len() + ls.len() {
                assert(k2[i - lf.len()] == key);
            } else {
                assert(k2[i] == key);
            }
        }
        if k2.contains(key) {
            let i = choose|i: int| 0 <= i < k2.len() && k2[i] == key;
            if i < lb.len() {
                assert(k1[i] == key);
            } else if i < lb.len() + ls.len() {
                assert(k1[i + lf.len()] == key);
            } else if i < lb.len() + ls.len() + lf.len() {
                assert(k1[i - ls.len()] == key);
            } else {
                assert(k1[i] == key);
            }
        }
    }
    assert forall|key: Seq<char>| type_owner_spec(t1, key) == type_owner_spec(t2, key) by {
        lemma_type_lookup_ignores_item_order(before, first, second, after, ns, file, key);
    }
    // The two orders give the same aliases.
    let la = |s: Seq<SyntaxItem>| aliases_spec(s, ns);
    lemma_aliases_concat(before + first + second, after, ns);
    lemma_aliases_concat(before + first, second, ns);
    lemma_aliases_concat(before, first, ns);
    lemma_aliases_concat(before + second + first, after, ns);
    lemma_aliases_concat(before + second, first, ns);
    lemma_aliases_concat(before, second, ns);
    let a1 = file_aliases(i1, path);
    let a2 = file_aliases(i2, path);
    assert(la(first) =~= Seq::<AliasEntry>::empty());
    assert(la(second) =~= Seq::<AliasEntry>::empty());
    assert(a1 =~= la(before) + la(after));
    assert(a2 =~= la(before) + la(after));
    // Visiting the second order with the first order's tables changes nothing.
    lemma_visit_list_by_answers(i2, ctx, t2, t1, a1, Seq::empty());
    // With the same tables, the blocks' entries are the same, in another order.
    let l = |s: Seq<SyntaxItem>| visit_list_spec(s, ctx, t1, a1, Seq::empty());
    lemma_visit_list_split(before + first + second, after, ctx, t1, a1);
    lemma_visit_list_split(before + first, second, ctx, t1, a1);
    lemma_visit_list_split(before, first, ctx, t1, a1);
    lemma_visit_list_split(before + second + first, after, ctx, t1, a1);
    lemma_visit_list_split(before + second, first, ctx, t1, a1);
    lemma_visit_list_split(before, second, ctx, t1, a1);
    let (xb, xf, xs, xa) = (l(before), l(first), l(second), l(after));
    assert(l(i1) =~= xb + xf + xs + xa);
    assert(l(i2) =~= xb + xs + xf + xa);
    vstd::seq_lib::lemma_multiset_commutative(xb + xf + xs, xa);
    vstd::seq_lib::lemma_multiset_commutative(xb + xf, xs);
    vstd::seq_lib::lemma_multiset_commutative(xb, xf);
    vstd::seq_lib::lemma_multiset_commutative(xb + xs + xf, xa);
    vstd::seq_lib::lemma_multiset_commutative(xb + xs, xf);
    vstd::seq_lib::lemma_multiset_commutative(xb, xs);
    assert(xb.to_multiset().add(xf.to_multiset()).add(xs.to_multiset()) =~= xb.to_multiset().add(
        xs.to_multiset(),
    ).add(xf.to_multiset()));
}

/// The grammar kinds of the type definitions that can stand at module level: structs,
/// enums, unions, traits and type aliases.
pub open spec fn is_module_type_kind(kind: Seq<char>) -> bool {
    ||| kind == "struct_item"@
    ||| kind == "enum_item"@
    ||| kind == "union_item"@
    ||| kind == "trait_item"@
    ||| kind == "type_item"@
}

/// Every type that extraction records at module level is one of the file's local types:
/// a struct, enum, union, trait or type alias with a name is recorded as a type symbol
/// whose key, `type:` and its module path, is in the local type table of any list of
/// module-level items that holds it. So an impl of that type, in the same file, finds its
/// owner.
pub proof fn lemma_module_types_are_local(
    items: Seq<SyntaxItem>,
    i: int,
    namespace: Seq<Seq<char>>,
    file: u64,
    owner: Option<u64>,
)
    requires
        0 <= i < items.len(),
        is_module_type_kind(items[i].kind@),
        items[i].name is Some,
    ensures
        type_key(
            items[i].kind@,
            namespace_context(namespace, file, owner),
            items[i].name->Some_0@,
        ) == "type:"@ + join_path_spec(namespace, items[i].name->Some_0@),
        local_types_spec(items, namespace).contains(
            "type:"@ + join_path_spec(namespace, items[i].name->Some_0@),
        ),
{
    let key = "type:"@ + join_path_spec(namespace, items[i].name->Some_0@);
    let item = items[i];
    reveal_strlit("mod_item");
    reveal_strlit("struct_item");
    reveal_strlit("enum_item");
    reveal_strlit("union_item");
    reveal_strlit("trait_item");
    reveal_strlit("type_item");
    assert(item.kind@ != "mod_item"@) by {
        if item.kind@ == "mod_item"@ {
            assert(item.kind@[1] == 'o');
        }
    }
    assert(local_types_item(item, namespace) =~= seq![key]);
    let before = items.take(i);
    let rest = items.skip(i + 1);
    assert(items =~= before + seq![item] + rest);
    lemma_local_types_concat(before + seq![item], rest, namespace);
    lemma_local_types_concat(before, seq![item], namespace);
    assert(seq![item].drop_last() =~= Seq::<SyntaxItem>::empty());
    assert(seq![item].last() == item);
    assert(local_types_spec(Seq::<SyntaxItem>::empty(), namespace) =~= Seq::<Seq<char>>::empty());
    assert(local_types_spec(seq![item], namespace) == local_types_spec(
        Seq::<SyntaxItem>::empty(),
        namespace,
    ) + local_types_item(item, namespace));
    assert(local_types_spec(seq![item], namespace) =~= seq![key]);
    let all = local_types_spec(before, namespace) + seq![key] + local_types_spec(rest, namespace);
    assert(local_types_spec(items, namespace) == all);
    assert(all[local_types_spec(before, namespace).len() as int] == key);
}

/// Whether extraction visits no body of an item of this grammar kind: anything but a
/// module, a trait or an impl.
pub open spec fn opens_no_body(kind: Seq<char>) -> bool {
    kind != "mod_item"@ && kind != "trait_item"@ && kind != "impl_item"@
}

/// A text whose first character is not whitespace is not blank.
proof fn lemma_not_blank(s: Seq<char>)
    requires
        s.len() > 0,
        !crate::text::is_space(s[0]),
    ensures
        !is_blank(s),
{
    assert(crate::text::trim_start(s) == s);
    lemma_trim_end_keeps_first(s);
}

/// Trailing whitespace removal keeps a first character that is not whitespace.
proof fn lemma_trim_end_keeps_first(s: Seq<char>)
    requires
        s.len() > 0,
        !crate::text::is_space(s[0]),
    ensures
        crate::text::trim_end(s).len() > 0,
    decreases s.len(),
{
    if s.len() > 1 && crate::text::is_space(s.last()) {
        assert(s.drop_last()[0] == s[0]);
        lemma_trim_end_keeps_first(s.drop_last());
    }
}

/// Visiting items that open no body records every symbol under the context's owner.
proof fn lemma_members_take_context_owner(
    items: Seq<SyntaxItem>,
    ctx: ContextView,
    types: Seq<(Seq<char>, u64)>,
    aliases: Seq<AliasEntry>,
)
    requires
        forall|i: int| 0 <= i < items.len() ==> opens_no_body(#[trigger] items[i].kind@),
    ensures
        forall|j: int|
            0 <= j < visit_list_spec(items, ctx, types, aliases, Seq::empty()).len() ==> (
            #[trigger] visit_list_spec(items, ctx, types, aliases, Seq::empty())[j]).owner
                == ctx.owner,
    decreases items.len(),
{
    if items.len() > 0 {
        let init = items.drop_last();
        assert forall|i: int| 0 <= i < init.len() implies opens_no_body(#[trigger] init[i].kind@) by {
            assert(init[i] == items[i]);
        }
        lemma_members_take_context_owner(init, ctx, types, aliases);
        let front = visit_list_spec(init, ctx, types, aliases, Seq::empty());
        lemma_visit_item_appends(items.last(), ctx, types, aliases, front);
        let last = visit_item_spec(items.last(), ctx, types, aliases, Seq::empty());
        assert(opens_no_body(items[items.len() - 1].kind@));
        assert forall|j: int| 0 <= j < last.len() implies (#[trigger] last[j]).owner == ctx.owner by {}
        let all = visit_list_spec(items, ctx, types, aliases, Seq::empty());
        assert(all == front + last);
        assert forall|j: int| 0 <= j < all.len() implies (#[trigger] all[j]).owner == ctx.owner by {
            if j < front.len() {
                assert(all[j] == front[j]);
            } else {
                assert(all[j] == last[j - front.len()]);
            }
        }
    }
}

/// Trait members are defined by their trait: visiting a module-level trait named `n` with
/// a name that is not blank records the trait first, as a type symbol keyed `type:` and
/// its module path, owned by the enclosing owner; every symbol recorded for its members
/// after it is owned by that trait's symbol.
pub proof fn lemma_trait_members_owned_by_trait(
    item: SyntaxItem,
    ctx: ContextView,
    types: Seq<(Seq<char>, u64)>,
    aliases: Seq<AliasEntry>,
)
    requires
        item.kind@ == "trait_item"@,
        item.name is Some,
        !is_blank(item.name->Some_0@),
        ctx.member is None,
        item.body is Some,
        forall|i: int|
            0 <= i < item.body->Some_0@.len() ==> opens_no_body(
                #[trigger] item.body->Some_0@[i].kind@,
            ),
    ensures
        ({
            let r = visit_item_spec(item, ctx, types, aliases, Seq::empty());
            let key = "type:"@ + join_path_spec(ctx.namespace, item.name->Some_0@);
            &&& r.len() >= 1
            &&& r[0].key == key
            &&& r[0].kind == SymbolKind::Type
            &&& r[0].owner == ctx.owner
            &&& forall|j: int| 1 <= j < r.len() ==> (#[trigger] r[j]).owner == Some(
                symbol_hash(ctx.file, key),
            )
        }),
{
    reveal_strlit("trait_item");
    reveal_strlit("mod_item");
    reveal_strlit("type:");
    let n = item.name->Some_0@;
    let b = item.body->Some_0@;
    let key = "type:"@ + join_path_spec(ctx.namespace, n);
    assert(item.kind@ != "mod_item"@) by {
        assert(item.kind@[0] != "mod_item"@[0]);
    }
    assert(is_type_kind(item.kind@));
    assert(type_key(item.kind@, ctx, n) == key);
    assert(key[0] == 't');
    lemma_not_blank(key);
    let recorded = push_spec(Seq::empty(), ctx, SymbolKind::Type, n, key, item.span);
    assert(recorded.len() == 1);
    let inner = ContextView {
        file: ctx.file,
        namespace: ctx.namespace,
        owner: Some(symbol_hash(ctx.file, key)),
        member: Some(stable_owner_name_spec(key)),
    };
    lemma_visit_list_appends(b, inner, types, aliases, recorded);
    lemma_members_take_context_owner(b, inner, types, aliases);
    let members = visit_list_spec(b, inner, types, aliases, Seq::empty());
    let r = visit_item_spec(item, ctx, types, aliases, Seq::empty());
    assert(r == recorded + members);
    assert forall|j: int| 1 <= j < r.len() implies (#[trigger] r[j]).owner == Some(
        symbol_hash(ctx.file, key),
    ) by {
        assert(r[j] == members[j - 1]);
    }
}

/// Module members are defined by their module: visiting an inline module named `n` that is
/// not blank records the module first, keyed `module:` and its path, owned by the
/// enclosing owner; every symbol recorded for its members after it is owned by that
/// module's symbol.
pub proof fn lemma_module_members_owned_by_module(
    item: SyntaxItem,
    ctx: ContextView,
    types: Seq<(Seq<char>, u64)>,
    aliases: Seq<AliasEntry>,
)
    requires
        item.kind@ == "mod_item"@,
        item.name is Some,
        !is_blank(item.name->Some_0@),
        item.body is Some,
        forall|i: int|
            0 <= i < item.body->Some_0@.len() ==> opens_no_body(
                #[trigger] item.body->Some_0@[i].kind@,
            ),
    ensures
        ({
            let r = visit_item_spec(item, ctx, types, aliases, Seq::empty());
            let key = "module:"@ + join_path_spec(ctx.namespace, item.name->Some_0@);
            &&& r.len() >= 1
            &&& r[0].key == key
            &&& r[0].kind == SymbolKind::Module
            &&& r[0].owner == ctx.owner
            &&& forall|j: int| 1 <= j < r.len() ==> (#[trigger] r[j]).owner == Some(
                symbol_hash(ctx.file, key),
            )
        }),
{
    reveal_strlit("module:");
    let n = item.name->Some_0@;
    let b = item.body->Some_0@;
    let key = "module:"@ + join_path_spec(ctx.namespace, n);
    assert(key[0] == 'm');
    lemma_not_blank(key);
    let recorded = push_spec(Seq::empty(), ctx, SymbolKind::Module, n, key, item.span);
    assert(recorded.len() == 1);
    let inner = ContextView {
        file: ctx.file,
        namespace: ctx.namespace.push(n),
        owner: Some(symbol_hash(ctx.file, key)),
        member: None,
    };
    lemma_visit_list_appends(b, inner, types, aliases, recorded);
    lemma_members_take_context_owner(b, inner, types, aliases);
    let members = visit_list_spec(b, inner, types, aliases, Seq::empty());
    let r = visit_item_spec(item, ctx, types, aliases, Seq::empty());
    assert(r == recorded + members);
    assert forall|j: int| 1 <= j < r.len() implies (#[trigger] r[j]).owner == Some(
        symbol_hash(ctx.file, key),
    ) by {
        assert(r[j] == members[j - 1]);
    }
}

/// An impl is defined by the type it names: in a file's top module, with no `use` alias,
/// every symbol recorded for the members of `impl W { … }` is owned by the symbol of the
/// type `W` that the file defines (its local types list `type:W`), whether the type is
/// declared before or after the impl.
pub proof fn lemma_impl_members_owned_by_type(
    item: SyntaxItem,
    ctx: ContextView,
    file_items: Seq<SyntaxItem>,
    name: Seq<char>,
)
    requires
        item.kind@ == "impl_item"@,
        item.type_text is Some,
        item.type_text->Some_0@ == name,
        item.trait_text is None,
        item.body is Some,
        forall|i: int|
            0 <= i < item.body->Some_0@.len() ==> opens_no_body(
                #[trigger] item.body->Some_0@[i].kind@,
            ),
        ctx.namespace.len() == 0,
        name.len() > 0,
        forall|k: int|
            0 <= k < name.len() ==> !crate::text::is_space(#[trigger] name[k]) && name[k] != '<'
                && name[k] != ':',
        name != "self"@ && name != "super"@ && name != "crate"@,
        local_types_spec(file_items, Seq::empty()).contains("type:"@ + name),
    ensures
        forall|j: int|
            0 <= j < visit_item_spec(
                item,
                ctx,
                namespace_types(file_items, Seq::empty(), ctx.file),
                Seq::empty(),
                Seq::empty(),
            ).len() ==> (#[trigger] visit_item_spec(
                item,
                ctx,
                namespace_types(file_items, Seq::empty(), ctx.file),
                Seq::empty(),
                Seq::empty(),
            )[j]).owner == Some(symbol_hash(ctx.file, "type:"@ + name)),
{
    reveal_strlit("impl_item");
    reveal_strlit("mod_item");
    reveal_strlit("struct_item");
    reveal_strlit("enum_item");
    reveal_strlit("union_item");
    reveal_strlit("trait_item");
    reveal_strlit("type_item");
    reveal_strlit("associated_type");
    let k = item.kind@;
    assert(k != "mod_item"@) by {
        assert(k[1] != "mod_item"@[1]);
    }
    assert(!is_type_kind(k)) by {
        assert(k[0] != "struct_item"@[0]);
        assert(k[0] != "enum_item"@[0]);
        assert(k[0] != "union_item"@[0]);
        assert(k[0] != "trait_item"@[0]);
        assert(k[0] != "type_item"@[0]);
        assert(k[0] != "associated_type"@[0]);
    }
    let keys = local_types_spec(file_items, Seq::empty());
    let types = namespace_types(file_items, Seq::empty(), ctx.file);
    let key = "type:"@ + name;
    assert(type_keys(types) =~= keys);
    lemma_plain_impl_target(name, keys);
    assert(ctx.namespace =~= Seq::<Seq<char>>::empty());
    assert(impl_owner_spec(name, None, ctx.namespace, type_keys(types), Seq::empty()) == (
        name,
        Some(key),
    ));
    lemma_own_type_lookup(keys, ctx.file, key);
    assert(type_owner_spec(types, key) == Some(symbol_hash(ctx.file, key)));
    let b = item.body->Some_0@;
    let inner = ContextView {
        file: ctx.file,
        namespace: ctx.namespace,
        owner: Some(symbol_hash(ctx.file, key)),
        member: Some(name),
    };
    lemma_members_take_context_owner(b, inner, types, Seq::empty());
    assert(visit_item_spec(item, ctx, types, Seq::empty(), Seq::empty()) == visit_list_spec(
        b,
        inner,
        types,
        Seq::empty(),
        Seq::empty(),
    ));
}

/// Whether an extracted symbol is the one an entry records, in the file `file_id` at
/// `path`.
pub open spec fn symbol_matches(
    s: ExtractedSymbol,
    e: SymbolEntry,
    file_id: FileId,
    path: Seq<char>,
) -> bool {
    &&& s.kind == e.kind
    &&& s.display_name@ == e.name
    &&& s.stable_key@ == e.key
    &&& s.span == e.span
    &&& s.file_id == file_id
    &&& s.relative_path@ == path
    &&& s.id@ == symbol_hash(file_id@, e.key)
    &&& match (s.owner, e.owner) {
        (SymbolOwner::File(f), None) => f == file_id,
        (SymbolOwner::Symbol(o), Some(h)) => o@ == h,
        _ => false,
    }
}

/// Whether the extracted symbols are, in order, those the entries record.
pub open spec fn symbols_match(
    syms: Seq<ExtractedSymbol>,
    entries: Seq<SymbolEntry>,
    file_id: FileId,
    path: Seq<char>,
) -> bool {
    &&& syms.len() == entries.len()
    &&& forall|i: int|
        0 <= i < syms.len() ==> symbol_matches(#[trigger] syms[i], entries[i], file_id, path)
}

/// The context of extraction, in characters.
pub(crate) struct Context {
    pub(crate) file: FileId,
    pub(crate) namespace: Vec<Vec<char>>,
    pub(crate) owner: Option<SymbolId>,
    pub(crate) member: Option<Vec<char>>,
}

/// The tables extraction resolves impl targets with: the type symbols by key, their keys
/// alone, and the `use` aliases.
pub struct Tables {
    pub types: Vec<(Vec<char>, SymbolId)>,
    pub keys: Vec<Vec<char>>,
    pub aliases: Vec<(Vec<char>, Vec<char>, Vec<char>)>,
}

impl Tables {
    /// The type symbols as `(key, identifier)` pairs.
    pub open spec fn types_view(&self) -> Seq<(Seq<char>, u64)> {
        self.types@.map_values(|p: (Vec<char>, SymbolId)| (p.0@, p.1@))
    }

    /// The keys are those of the type symbols.
    pub open spec fn wf(&self) -> bool {
        char_views(self.keys@) == type_keys(self.types_view())
    }
}

/// The identifier of the last type symbol recorded under `key`.
pub(crate) fn type_owner(types: &Vec<(Vec<char>, SymbolId)>, key: &Vec<char>) -> (r: Option<SymbolId>)
    ensures
        match (r, type_owner_spec(types@.map_values(|p: (Vec<char>, SymbolId)| (p.0@, p.1@)), key@)) {
            (Some(id), Some(h)) => id@ == h,
            (None, None) => true,
            _ => false,
        },
{
    let ghost tv = types@.map_values(|p: (Vec<char>, SymbolId)| (p.0@, p.1@));
    let mut n: usize = types.len();
    assert(tv.take(n as int) =~= tv);
    while n > 0
        invariant
            n <= types@.len(),
            tv == types@.map_values(|p: (Vec<char>, SymbolId)| (p.0@, p.1@)),
            type_owner_spec(tv, key@) == type_owner_spec(tv.take(n as int), key@),
        decreases n,
    {
        assert(tv.take(n as int).last() == (types@[n - 1].0@, types@[n - 1].1@));
        if chars_equal(&types[n - 1].0, key) {
            return Some(types[n - 1].1);
        }
        assert(tv.take(n as int).drop_last() =~= tv.take(n - 1));
        n -= 1;
    }
    None
}

/// The text views of an optional character vector.
pub open spec fn opt_chars(v: Option<Vec<char>>) -> Option<Seq<char>> {
    match v {
        Some(t) => Some(t@),
        None => None,
    }
}

impl Context {
    pub(crate) open spec fn view_ctx(&self) -> ContextView {
        ContextView {
            file: self.file@,
            namespace: char_views(self.namespace@),
            owner: match self.owner {
                Some(id) => Some(id@),
                None => None,
            },
            member: opt_chars(self.member),
        }
    }
}

pub(crate) fn copy_chars(v: &Vec<char>) -> (r: Vec<char>)
    ensures
        r@ == v@,
{
    let mut r: Vec<char> = Vec::new();
    extend_chars(&mut r, v);
    assert(r@ =~= v@);
    r
}

pub(crate) fn copy_parts(v: &Vec<Vec<char>>) -> (r: Vec<Vec<char>>)
    ensures
        char_views(r@) == char_views(v@),
{
    let mut r: Vec<Vec<char>> = Vec::new();
    let mut i: usize = 0;
    while i < v.len()
        invariant
            i <= v@.len(),
            char_views(r@) == char_views(v@).take(i as int),
        decreases v@.len() - i,
    {
        let ghost prev = r@;
        r.push(copy_chars(&v[i]));
        assert(char_views(r@) =~= char_views(prev).push(v@[i as int]@));
        assert(char_views(v@).take(i + 1) =~= char_views(v@).take(i as int).push(v@[i as int]@));
        i += 1;
    }
    assert(char_views(v@).take(v@.len() as int) =~= char_views(v@));
    r
}

pub(crate) fn text_chars(s: &String) -> (r: Vec<char>)
    ensures
        r@ == s@,
{
    chars_of(s.as_str())
}

pub(crate) fn is_text(v: &Vec<char>, lit: &str) -> (b: bool)
    ensures
        b == (v@ == lit@),
{
    chars_equal(v, &chars_of(lit))
}

/// `lit` followed by `body`.
pub(crate) fn prefixed(lit: &str, body: &Vec<char>) -> (r: Vec<char>)
    ensures
        r@ == lit@ + body@,
{
    let mut r = chars_of(lit);
    extend_chars(&mut r, body);
    r
}

/// `a::b`.
fn qualified(a: &Vec<char>, b: &Vec<char>) -> (r: Vec<char>)
    ensures
        r@ == a@ + path_sep() + b@,
{
    let mut r = copy_chars(a);
    r.push(':');
    r.push(':');
    extend_chars(&mut r, b);
    assert(r@ =~= a@ + path_sep() + b@);
    r
}

fn path_separator() -> (r: Vec<char>)
    ensures
        r@ == path_sep(),
{
    let mut r: Vec<char> = Vec::new();
    r.push(':');
    r.push(':');
    assert(r@ =~= path_sep());
    r
}

/// A name qualified by a module namespace with `::`.
pub(crate) fn join_path(namespace: &Vec<Vec<char>>, name: &Vec<char>) -> (r: Vec<char>)
    ensures
        r@ == join_path_spec(char_views(namespace@), name@),
{
    if namespace.len() == 0 {
        copy_chars(name)
    } else {
        qualified(&join_chars(namespace, &path_separator()), name)
    }
}

/// The part of a stable key after its first `:`, or all of it.
fn stable_owner_name(key: &Vec<char>) -> (r: Vec<char>)
    ensures
        r@ == stable_owner_name_spec(key@),
{
    let n = key.len();
    let found = crate::text::find_char(key, ':');
    match found {
        Some(i) => {
            assert(i < n);
            crate::text::slice_chars(key, i + 1, n)
        },
        None => copy_chars(key),
    }
}



/// Records a symbol unless its name or key is blank.
fn push_symbol(
    symbols: &mut Vec<ExtractedSymbol>,
    file_id: FileId,
    path: &RelativePath,
    ctx: &Context,
    kind: SymbolKind,
    name: &Vec<char>,
    key: &Vec<char>,
    span: SourceSpan,
    Ghost(entries): Ghost<Seq<SymbolEntry>>,
)
    requires
        symbols_match(old(symbols)@, entries, file_id, path@),
    ensures
        symbols_match(
            final(symbols)@,
            push_spec(entries, ctx.view_ctx(), kind, name@, key@, span),
            file_id,
            path@,
        ),
{
    let owner = match ctx.owner {
        None => SymbolOwner::File(file_id),
        Some(id) => SymbolOwner::Symbol(id),
    };
    let display_name = string_from_chars(name);
    let stable_key = string_from_chars(key);
    let created = ExtractedSymbol::new(
        file_id,
        owner,
        path.duplicate(),
        kind,
        display_name.as_str(),
        stable_key,
        span,
    );
    match created {
        Ok(symbol) => {
            let ghost prev = symbols@;
            symbols.push(symbol);
            let ghost next = push_spec(entries, ctx.view_ctx(), kind, name@, key@, span);
            assert(next == entries.push(next.last()));
            assert forall|i: int| 0 <= i < symbols@.len() implies symbol_matches(
                #[trigger] symbols@[i],
                next[i],
                file_id,
                path@,
            ) by {
                if i < prev.len() {
                    assert(symbols@[i] == prev[i]);
                    assert(next[i] == entries[i]);
                }
            }
        },
        Err(_) => {},
    }
}

/// The owner name of an impl block and the key of its owner symbol, when the file
/// defines the type.
fn impl_owner(
    type_text: &String,
    trait_text: &Option<String>,
    namespace: &Vec<Vec<char>>,
    types: &Vec<Vec<char>>,
    aliases: &Vec<(Vec<char>, Vec<char>, Vec<char>)>,
) -> (r: (Vec<char>, Option<Vec<char>>))
    ensures
        (r.0@, opt_chars(r.1)) == impl_owner_spec(
            type_text@,
            opt_view(*trait_text),
            char_views(namespace@),
            char_views(types@),
            alias_views(aliases@),
        ),
{
    let (self_name, owner_key) = impl_type(&text_chars(type_text), namespace, types, aliases);
    assert(opt_chars(owner_key) == opt_chars_view(owner_key));
    match trait_text {
        Some(t) => {
            let (trait_name, _) = impl_type(&text_chars(t), namespace, types, aliases);
            let mut owner_name = trait_name;
            extend_chars(&mut owner_name, &chars_of(" for "));
            extend_chars(&mut owner_name, &self_name);
            (owner_name, owner_key)
        },
        None => (self_name, owner_key),
    }
}

/// Visits one item: records it when it is a named module, type, function or constant,
/// and visits the bodies of modules, traits and impls.
fn visit_item(
    item: &SyntaxItem,
    ctx: &Context,
    tables: &Tables,
    file_id: FileId,
    path: &RelativePath,
    symbols: &mut Vec<ExtractedSymbol>,
    Ghost(entries): Ghost<Seq<SymbolEntry>>,
)
    requires
        tables.wf(),
        ctx.file == file_id,
        symbols_match(old(symbols)@, entries, file_id, path@),
    ensures
        symbols_match(
            final(symbols)@,
            visit_item_spec(
                *item,
                ctx.view_ctx(),
                tables.types_view(),
                alias_views(tables.aliases@),
                entries,
            ),
            file_id,
            path@,
        ),
    decreases item, 0nat,
{
    let kind = text_chars(&item.kind);
    if is_text(&kind, "mod_item") {
        match &item.name {
            None => {},
            Some(n) => {
                let name = text_chars(n);
                let key = prefixed("module:", &join_path(&ctx.namespace, &name));
                push_symbol(
                    symbols,
                    file_id,
                    path,
                    ctx,
                    SymbolKind::Module,
                    &name,
                    &key,
                    item.span,
                    Ghost(entries),
                );
                let ghost recorded = push_spec(
                    entries,
                    ctx.view_ctx(),
                    SymbolKind::Module,
                    name@,
                    key@,
                    item.span,
                );
                match &item.body {
                    Some(b) => {
                        let mut namespace = copy_parts(&ctx.namespace);
                        let ghost before = namespace@;
                        namespace.push(copy_chars(&name));
                        assert(char_views(namespace@) =~= char_views(before).push(name@));
                        let owner = SymbolId::new(file_id, string_from_chars(&key).as_str());
                        let inner = Context {
                            file: file_id,
                            namespace,
                            owner: Some(owner),
                            member: None,
                        };
                        assert(inner.view_ctx() == (ContextView {
                            file: ctx.view_ctx().file,
                            namespace: ctx.view_ctx().namespace.push(name@),
                            owner: Some(symbol_hash(ctx.view_ctx().file, module_key(ctx.view_ctx(), name@))),
                            member: None,
                        }));
                        visit_item_list(b, &inner, tables, file_id, path, symbols, Ghost(recorded));
                    },
                    None => {},
                }
            },
        }
    } else if is_text(&kind, "struct_item") || is_text(&kind, "enum_item") || is_text(
        &kind,
        "union_item",
    ) || is_text(&kind, "trait_item") || is_text(&kind, "type_item") || is_text(
        &kind,
        "associated_type",
    ) {
        assert(item.kind@ != "mod_item"@);
        assert(is_type_kind(item.kind@));
        match &item.name {
            None => {},
            Some(n) => {
                let name = text_chars(n);
                let key = match &ctx.member {
                    Some(owner) => {
                        if is_text(&kind, "associated_type") || is_text(&kind, "type_item") {
                            prefixed("type:", &qualified(owner, &name))
                        } else {
                            prefixed("type:", &join_path(&ctx.namespace, &name))
                        }
                    },
                    None => prefixed("type:", &join_path(&ctx.namespace, &name)),
                };
                assert(key@ == type_key(item.kind@, ctx.view_ctx(), name@));
                push_symbol(
                    symbols,
                    file_id,
                    path,
                    ctx,
                    SymbolKind::Type,
                    &name,
                    &key,
                    item.span,
                    Ghost(entries),
                );
                let ghost recorded = push_spec(
                    entries,
                    ctx.view_ctx(),
                    SymbolKind::Type,
                    name@,
                    key@,
                    item.span,
                );
                if is_text(&kind, "trait_item") {
                    assert(item.kind@ == "trait_item"@);
                    match &item.body {
                        Some(b) => {
                            let owner = SymbolId::new(file_id, string_from_chars(&key).as_str());
                            let inner = Context {
                                file: file_id,
                                namespace: copy_parts(&ctx.namespace),
                                owner: Some(owner),
                                member: Some(stable_owner_name(&key)),
                            };
                            assert(inner.view_ctx() == (ContextView {
                                file: ctx.view_ctx().file,
                                namespace: ctx.view_ctx().namespace,
                                owner: Some(symbol_hash(ctx.view_ctx().file, key@)),
                                member: Some(stable_owner_name_spec(key@)),
                            }));
                            visit_item_list(b, &inner, tables, file_id, path, symbols, Ghost(recorded));
                        },
                        None => {},
                    }
                }
            },
        }
    } else if is_text(&kind, "impl_item") {
        assert(item.kind@ != "mod_item"@);
        assert(!is_type_kind(item.kind@));
        match &item.body {
            Some(b) => match &item.type_text {
                Some(t) => {
                    let (owner_name, owner_key) = impl_owner(
                        t,
                        &item.trait_text,
                        &ctx.namespace,
                        &tables.keys,
                        &tables.aliases,
                    );
                    let nesting = match &owner_key {
                        Some(k) => type_owner(&tables.types, k),
                        None => None,
                    };
                    let ghost owner_view = owner_name@;
                    let inner = Context {
                        file: file_id,
                        namespace: copy_parts(&ctx.namespace),
                        owner: nesting,
                        member: Some(owner_name),
                    };
                    assert(inner.view_ctx() == (ContextView {
                        file: ctx.view_ctx().file,
                        namespace: ctx.view_ctx().namespace,
                        owner: match opt_chars(owner_key) {
                            Some(k) => type_owner_spec(tables.types_view(), k),
                            None => None,
                        },
                        member: Some(owner_view),
                    }));
                    visit_item_list(b, &inner, tables, file_id, path, symbols, Ghost(entries));
                },
                None => {},
            },
            None => {},
        }
    } else if is_text(&kind, "function_item") || is_text(&kind, "function_signature_item") {
        match &item.name {
            None => {},
            Some(n) => {
                let name = text_chars(n);
                let (k, key) = match &ctx.member {
                    Some(owner) => (SymbolKind::Method, prefixed("method:", &qualified(owner, &name))),
                    None => (SymbolKind::Function, prefixed("fn:", &join_path(&ctx.namespace, &name))),
                };
                assert((k, key@) == function_entry(ctx.view_ctx(), name@));
                assert(item.kind@ != "mod_item"@);
                assert(!is_type_kind(item.kind@));
                assert(item.kind@ != "impl_item"@);
                push_symbol(symbols, file_id, path, ctx, k, &name, &key, item.span, Ghost(entries));
            },
        }
    } else if is_text(&kind, "const_item") || is_text(&kind, "static_item") {
        assert(item.kind@ != "mod_item"@);
        assert(!is_type_kind(item.kind@));
        assert(item.kind@ != "impl_item"@);
        assert(item.kind@ != "function_item"@ && item.kind@ != "function_signature_item"@);
        match &item.name {
            None => {},
            Some(n) => {
                let name = text_chars(n);
                let key = match &ctx.member {
                    Some(owner) => prefixed("const:", &qualified(owner, &name)),
                    None => prefixed("const:", &join_path(&ctx.namespace, &name)),
                };
                assert(key@ == constant_key(ctx.view_ctx(), name@));
                push_symbol(
                    symbols,
                    file_id,
                    path,
                    ctx,
                    SymbolKind::Constant,
                    &name,
                    &key,
                    item.span,
                    Ghost(entries),
                );
            },
        }
    } else {
        assert(item.kind@ != "mod_item"@);
        assert(!is_type_kind(item.kind@));
        assert(item.kind@ != "impl_item"@);
        assert(item.kind@ != "function_item"@ && item.kind@ != "function_signature_item"@);
        assert(item.kind@ != "const_item"@ && item.kind@ != "static_item"@);
    }
}

/// Visits a list of items in order.
pub(crate) fn visit_item_list(
    items: &Vec<SyntaxItem>,
    ctx: &Context,
    tables: &Tables,
    file_id: FileId,
    path: &RelativePath,
    symbols: &mut Vec<ExtractedSymbol>,
    Ghost(entries): Ghost<Seq<SymbolEntry>>,
)
    requires
        tables.wf(),
        ctx.file == file_id,
        symbols_match(old(symbols)@, entries, file_id, path@),
    ensures
        symbols_match(
            final(symbols)@,
            visit_list_spec(
                items@,
                ctx.view_ctx(),
                tables.types_view(),
                alias_views(tables.aliases@),
                entries,
            ),
            file_id,
            path@,
        ),
    decreases items@, 1nat,
{
    let mut i: usize = 0;
    assert(items@.take(0) =~= Seq::<SyntaxItem>::empty());
    while i < items.len()
        invariant
            i <= items@.len(),
            tables.wf(),
            ctx.file == file_id,
            symbols_match(
                symbols@,
                visit_list_spec(
                    items@.take(i as int),
                    ctx.view_ctx(),
                    tables.types_view(),
                    alias_views(tables.aliases@),
                    entries,
                ),
                file_id,
                path@,
            ),
        decreases items@.len() - i,
    {
        let ghost so_far = visit_list_spec(
            items@.take(i as int),
            ctx.view_ctx(),
            tables.types_view(),
            alias_views(tables.aliases@),
            entries,
        );
        visit_item(&items[i], ctx, tables, file_id, path, symbols, Ghost(so_far));
        assert(items@.take(i + 1).drop_last() =~= items@.take(i as int));
        assert(items@.take(i + 1).last() == items@[i as int]);
        i += 1;
    }
    assert(items@.take(items@.len() as int) =~= items@);
}

pub(crate) fn namespace_chars(names: &Vec<String>) -> (r: Vec<Vec<char>>)
    ensures
        char_views(r@) == names@.map_values(|s: String| s@),
{
    let mut r: Vec<Vec<char>> = Vec::new();
    let mut i: usize = 0;
    while i < names.len()
        invariant
            i <= names@.len(),
            char_views(r@) == names@.map_values(|s: String| s@).take(i as int),
        decreases names@.len() - i,
    {
        let ghost prev = r@;
        r.push(text_chars(&names[i]));
        assert(char_views(r@) =~= char_views(prev).push(names@[i as int]@));
        assert(names@.map_values(|s: String| s@).take(i + 1) =~= names@.map_values(
            |s: String| s@,
        ).take(i as int).push(names@[i as int]@));
        i += 1;
    }
    assert(names@.map_values(|s: String| s@).take(names@.len() as int) =~= names@.map_values(
        |s: String| s@,
    ));
    r
}

/// The type symbols of a file at `path` with top-level items `items`, as `(key,
/// identifier)` pairs: those it defines at module level.
pub open spec fn file_types(items: Seq<SyntaxItem>, path: Seq<char>, file: u64) -> Seq<
    (Seq<char>, u64),
> {
    namespace_types(items, rust_layout_spec(path_segments(path)).1, file)
}

/// The type symbols of file `file` with top-level items `items` under `namespace`.
pub open spec fn namespace_types(items: Seq<SyntaxItem>, namespace: Seq<Seq<char>>, file: u64) -> Seq<
    (Seq<char>, u64),
> {
    local_types_spec(items, namespace).map_values(|k: Seq<char>| (k, symbol_hash(file, k)))
}

/// The type keys of a list of items are those of its first part, then those of the rest.
proof fn lemma_local_types_concat(a: Seq<SyntaxItem>, b: Seq<SyntaxItem>, namespace: Seq<Seq<char>>)
    ensures
        local_types_spec(a + b, namespace) == local_types_spec(a, namespace) + local_types_spec(
            b,
            namespace,
        ),
    decreases b.len(),
{
    if b.len() == 0 {
        assert(a + b =~= a);
        assert(local_types_spec(a, namespace) + local_types_spec(b, namespace) =~= local_types_spec(
            a,
            namespace,
        ));
    } else {
        lemma_local_types_concat(a, b.drop_last(), namespace);
        assert((a + b).drop_last() =~= a + b.drop_last());
        assert((a + b).last() == b.last());
        assert(local_types_spec(a + b, namespace) =~= local_types_spec(a, namespace)
            + local_types_spec(b, namespace));
    }
}

/// In a table whose entries each pair a key with that key's symbol in `file`, a key looks
/// up its own symbol exactly when the table lists it.
proof fn lemma_own_type_lookup(keys: Seq<Seq<char>>, file: u64, key: Seq<char>)
    ensures
        type_owner_spec(keys.map_values(|k: Seq<char>| (k, symbol_hash(file, k))), key) == if keys.contains(
            key,
        ) {
            Some(symbol_hash(file, key))
        } else {
            None
        },
    decreases keys.len(),
{
    let table = keys.map_values(|k: Seq<char>| (k, symbol_hash(file, k)));
    if keys.len() > 0 {
        lemma_own_type_lookup(keys.drop_last(), file, key);
        assert(table.drop_last() =~= keys.drop_last().map_values(
            |k: Seq<char>| (k, symbol_hash(file, k)),
        ));
        assert(table.last() == (keys.last(), symbol_hash(file, keys.last())));
        if keys.contains(key) && keys.last() != key {
            let i = choose|i: int| 0 <= i < keys.len() && keys[i] == key;
            assert(keys.drop_last()[i] == key);
        }
        if keys.drop_last().contains(key) {
            let i = choose|i: int| 0 <= i < keys.len() - 1 && keys.drop_last()[i] == key;
            assert(keys[i] == key);
        }
    }
}

/// Declaration order does not decide which type symbol a name resolves to in a file:
/// swapping two adjacent blocks of items leaves every lookup in the file's type table
/// unchanged.
pub proof fn lemma_type_lookup_ignores_item_order(
    before: Seq<SyntaxItem>,
    first: Seq<SyntaxItem>,
    second: Seq<SyntaxItem>,
    after: Seq<SyntaxItem>,
    namespace: Seq<Seq<char>>,
    file: u64,
    key: Seq<char>,
)
    ensures
        type_owner_spec(namespace_types(before + first + second + after, namespace, file), key)
            == type_owner_spec(namespace_types(before + second + first + after, namespace, file), key),
{
    let l = |s: Seq<SyntaxItem>| local_types_spec(s, namespace);
    lemma_local_types_concat(before + first + second, after, namespace);
    lemma_local_types_concat(before + first, second, namespace);
    lemma_local_types_concat(before, first, namespace);
    lemma_local_types_concat(before + second + first, after, namespace);
    lemma_local_types_concat(before + second, first, namespace);
    lemma_local_types_concat(before, second, namespace);
    let k1 = local_types_spec(before + first + second + after, namespace);
    let k2 = local_types_spec(before + second + first + after, namespace);
    assert(k1 =~= l(before) + l(first) + l(second) + l(after));
    assert(k2 =~= l(before) + l(second) + l(first) + l(after));
    assert(k1.contains(key) == k2.contains(key)) by {
        let (lb, lf, ls, la) = (l(before), l(first), l(second), l(after));
        if k1.contains(key) {
            let i = choose|i: int| 0 <= i < k1.len() && k1[i] == key;
            if i < lb.len() {
                assert(k2[i] == key);
            } else if i < lb.len() + lf.len() {
                assert(k2[i + ls.len()] == key);
            } else if i < lb.len() + lf.len() + ls.len() {
                assert(k2[i - lf.len()] == key);
            } else {
                assert(k2[i] == key);
            }
        }
        if k2.contains(key) {
            let i = choose|i: int| 0 <= i < k2.len() && k2[i] == key;
            if i < lb.len() {
                assert(k1[i] == key);
            } else if i < lb.len() + ls.len() {
                assert(k1[i + lf.len()] == key);
            } else if i < lb.len() + ls.len() + lf.len() {
                assert(k1[i - ls.len()] == key);
            } else {
                assert(k1[i] == key);
            }
        }
    }
    lemma_own_type_lookup(k1, file, key);
    lemma_own_type_lookup(k2, file, key);
}

/// The `use` aliases a file with top-level items `items` at `path` declares.
pub open spec fn file_aliases(items: Seq<SyntaxItem>, path: Seq<char>) -> Seq<AliasEntry> {
    aliases_spec(items, rust_layout_spec(path_segments(path)).1)
}

/// Type symbols of `file_id` for each key.
pub(crate) fn owned_types(keys: &Vec<Vec<char>>, file_id: FileId) -> (r: Vec<(Vec<char>, SymbolId)>)
    ensures
        r@.map_values(|p: (Vec<char>, SymbolId)| (p.0@, p.1@)) == char_views(keys@).map_values(
            |k: Seq<char>| (k, symbol_hash(file_id@, k)),
        ),
{
    let mut r: Vec<(Vec<char>, SymbolId)> = Vec::new();
    let mut i: usize = 0;
    while i < keys.len()
        invariant
            i <= keys@.len(),
            r@.map_values(|p: (Vec<char>, SymbolId)| (p.0@, p.1@)) == char_views(keys@).map_values(
                |k: Seq<char>| (k, symbol_hash(file_id@, k)),
            ).take(i as int),
        decreases keys@.len() - i,
    {
        let ghost prev = r@;
        let key_text = string_from_chars(&keys[i]);
        let id = SymbolId::new(file_id, key_text.as_str());
        assert(id@ == symbol_hash(file_id@, keys@[i as int]@));
        r.push((copy_chars(&keys[i]), id));
        assert(r@.map_values(|p: (Vec<char>, SymbolId)| (p.0@, p.1@)) =~= prev.map_values(
            |p: (Vec<char>, SymbolId)| (p.0@, p.1@),
        ).push((keys@[i as int]@, symbol_hash(file_id@, keys@[i as int]@))));
        assert(char_views(keys@)[i as int] == keys@[i as int]@);
        assert(r@.map_values(|p: (Vec<char>, SymbolId)| (p.0@, p.1@)) =~= char_views(
            keys@,
        ).map_values(|k: Seq<char>| (k, symbol_hash(file_id@, k))).take(i + 1));
        i += 1;
    }
    assert(char_views(keys@).map_values(|k: Seq<char>| (k, symbol_hash(file_id@, k))).take(
        keys@.len() as int,
    ) =~= char_views(keys@).map_values(|k: Seq<char>| (k, symbol_hash(file_id@, k))));
    r
}

/// The symbols of a file at `relative_path` whose top-level items are `items`, in the
/// order the items and their bodies list them, under the namespace the path gives, with
/// the file's own types and `use` aliases resolving impl targets.
pub fn extract_item_symbols(
    items: &Vec<SyntaxItem>,
    file_id: FileId,
    relative_path: &RelativePath,
) -> (r: Vec<ExtractedSymbol>)
    ensures
        symbols_match(
            r@,
            visit_list_spec(
                items@,
                file_context(relative_path@, file_id@, None),
                file_types(items@, relative_path@, file_id@),
                file_aliases(items@, relative_path@),
                Seq::empty(),
            ),
            file_id,
            relative_path@,
        ),
{
    let layout = rust_source_layout(relative_path);
    let namespace = namespace_chars(&layout.namespace);
    extract_namespace_symbols(items, file_id, relative_path, namespace)
}

/// The symbols of a file whose top-level items are `items`, read under the module path
/// `namespace`, with the file's own types and `use` aliases resolving impl targets.
pub(crate) fn extract_namespace_symbols(
    items: &Vec<SyntaxItem>,
    file_id: FileId,
    relative_path: &RelativePath,
    namespace: Vec<Vec<char>>,
) -> (r: Vec<ExtractedSymbol>)
    ensures
        symbols_match(
            r@,
            visit_list_spec(
                items@,
                namespace_context(char_views(namespace@), file_id@, None),
                namespace_types(items@, char_views(namespace@), file_id@),
                aliases_spec(items@, char_views(namespace@)),
                Seq::empty(),
            ),
            file_id,
            relative_path@,
        ),
{
    let keys = local_types(items, &namespace);
    let types = owned_types(&keys, file_id);
    let aliases = collect_use_aliases(items, &namespace);
    let tables = Tables { types, keys, aliases };
    assert(char_views(tables.keys@) =~= type_keys(tables.types_view()));
    let mut symbols: Vec<ExtractedSymbol> = Vec::new();
    let ctx = Context { file: file_id, namespace, owner: None, member: None };
    visit_item_list(
        items,
        &ctx,
        &tables,
        file_id,
        relative_path,
        &mut symbols,
        Ghost(Seq::empty()),
    );
    symbols
}

} // verus!
