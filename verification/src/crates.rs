//! Symbols across the files of a repository: which crate each file belongs to, the type
//! and module symbols each crate defines, and the `use` aliases each crate declares, so
//! that an impl in one file is owned by a type defined in another.

use vstd::prelude::*;

use crate::extract::{
    copy_chars, copy_parts, extract_namespace_symbols, file_context, namespace_context,
    namespace_types, is_text, join_path, join_path_spec, namespace_chars, owned_types, prefixed,
    symbols_match, text_chars, type_keys, type_owner_spec, visit_list_spec, Context,
    ExtractedSymbol, Tables,
};
use crate::resolve::{alias_views, aliases_spec, collect_use_aliases, local_types, AliasEntry};
use crate::ids::{symbol_hash, FileId, SymbolId};
use crate::layout::{
    direct_crate_scope, direct_scope_spec, package_prefix, path_anchored_crate_scope,
    path_anchored_scope_spec, path_segments, preferred_crate_scope, preferred_scope_spec,
    rust_layout_spec, rust_source_layout, scope_matches_package, scope_matches_spec,
};
use crate::path::RelativePath;
use crate::resolve::local_types_spec;
use crate::syntax::SyntaxItem;
use crate::text::{char_views, chars_equal, join_chars, join_with};
use crate::use_tree::path_sep;

verus! {

/// A source file of a repository as extraction reads it: its identifier, its path and the
/// items of its syntax tree.
pub struct SourceItems {
    pub file_id: FileId,
    pub relative_path: RelativePath,
    pub items: Vec<SyntaxItem>,
}

/// The module symbols a list of items declares, modules nested in module bodies included,
/// as `(key, identifier)` pairs of the file `file`, in order.
pub open spec fn module_owners_spec(items: Seq<SyntaxItem>, namespace: Seq<Seq<char>>, file: u64) -> Seq<
    (Seq<char>, u64),
>
    decreases items, 1nat,
{
    if items.len() == 0 {
        Seq::empty()
    } else {
        module_owners_spec(items.drop_last(), namespace, file) + module_owners_item(
            items.last(),
            namespace,
            file,
        )
    }
}

/// The module symbols one item declares.
pub open spec fn module_owners_item(item: SyntaxItem, namespace: Seq<Seq<char>>, file: u64) -> Seq<
    (Seq<char>, u64),
>
    decreases item, 0nat,
{
    if item.kind@ != "mod_item"@ {
        Seq::empty()
    } else {
        match item.name {
            None => Seq::empty(),
            Some(n) => {
                let key = "module:"@ + join_path_spec(namespace, n@);
                let here = seq![(key, symbol_hash(file, key))];
                match item.body {
                    Some(b) => here + module_owners_spec(b@, namespace.push(n@), file),
                    None => here,
                }
            },
        }
    }
}

/// The namespace a file's path gives it.
pub open spec fn path_namespace(path: Seq<char>) -> Seq<Seq<char>> {
    rust_layout_spec(path_segments(path)).1
}

/// The type symbols a file defines, as `(key, identifier)` pairs.
pub open spec fn file_type_owners(f: SourceItems) -> Seq<(Seq<char>, u64)> {
    local_types_spec(f.items@, path_namespace(f.relative_path@)).map_values(
        |k: Seq<char>| (k, symbol_hash(f.file_id@, k)),
    )
}

/// The module symbols a file declares, as `(key, identifier)` pairs.
pub open spec fn file_module_owners(f: SourceItems) -> Seq<(Seq<char>, u64)> {
    module_owners_spec(f.items@, path_namespace(f.relative_path@), f.file_id@)
}

/// The type and module symbols of one crate, by the crate's scope key.
pub struct CrateOwners {
    pub scope: Vec<char>,
    pub types: Vec<(Vec<char>, SymbolId)>,
    pub modules: Vec<(Vec<char>, SymbolId)>,
}

/// `(key, identifier)` views of a table of symbols.
pub open spec fn owner_views(v: Seq<(Vec<char>, SymbolId)>) -> Seq<(Seq<char>, u64)> {
    v.map_values(|p: (Vec<char>, SymbolId)| (p.0@, p.1@))
}

/// A crate as values: its scope key, then its `(key, identifier)` type and module entries.
pub type CrateTable = (Seq<char>, Seq<(Seq<char>, u64)>, Seq<(Seq<char>, u64)>);

/// A crate of the table, as values.
pub open spec fn crate_view(c: CrateOwners) -> CrateTable {
    (c.scope@, owner_views(c.types@), owner_views(c.modules@))
}

/// The crates of a table, as values.
pub open spec fn table_view(crates: Seq<CrateOwners>) -> Seq<CrateTable> {
    crates.map_values(|c: CrateOwners| crate_view(c))
}

/// The scope keys of a table of crate values.
pub open spec fn table_scopes(tables: Seq<CrateTable>) -> Seq<Seq<char>> {
    tables.map_values(|t: CrateTable| t.0)
}

/// The scope keys of a list of crates.
pub open spec fn scope_views(crates: Seq<CrateOwners>) -> Seq<Seq<char>> {
    crates.map_values(|c: CrateOwners| c.scope@)
}

/// Whether a crate declares a module key.
pub open spec fn has_module(t: CrateTable, key: Seq<char>) -> bool {
    type_keys(t.2).contains(key)
}

/// The key of the module a file's path makes it: `module:` and its namespace, for a file
/// below its crate root.
pub open spec fn file_module_key(path: Seq<char>) -> Option<Seq<char>> {
    let namespace = path_namespace(path);
    if namespace.len() == 0 {
        None
    } else {
        Some("module:"@ + join_with(namespace, path_sep()))
    }
}

/// The crates that could hold a file its path does not place: those of its package that
/// declare the module its path makes it, in table order.
pub open spec fn candidate_scopes(tables: Seq<CrateTable>, path: Seq<char>) -> Seq<Seq<char>>
    decreases tables.len(),
{
    if tables.len() == 0 {
        Seq::empty()
    } else {
        let c = tables.last();
        let rest = candidate_scopes(tables.drop_last(), path);
        match file_module_key(path) {
            Some(k) => if scope_matches_spec(c.0, rust_layout_spec(path_segments(path)).0)
                && has_module(c, k) {
                rest.push(c.0)
            } else {
                rest
            },
            None => rest,
        }
    }
}

/// The crate a file belongs to: the one its path shows, else the binary crate a nested
/// `src/bin` path anchors when that crate is known, else the preferred crate of its
/// package that declares the module its path makes it.
pub open spec fn resolved_scope_spec(tables: Seq<CrateTable>, path: Seq<char>) -> Option<Seq<char>> {
    match direct_scope_spec(path_segments(path)) {
        Some(s) => Some(s),
        None => {
            let anchored = path_anchored_scope_spec(path_segments(path));
            if anchored is Some && table_scopes(tables).contains(anchored->0) {
                anchored
            } else {
                let candidates = candidate_scopes(tables, path);
                if candidates.len() == 1 {
                    Some(candidates[0])
                } else {
                    preferred_scope_spec(candidates)
                }
            }
        },
    }
}


/// Appends the module symbols one item declares.
fn module_owners_of_item(
    item: &SyntaxItem,
    namespace: &Vec<Vec<char>>,
    file_id: FileId,
    out: &mut Vec<(Vec<char>, SymbolId)>,
)
    ensures
        owner_views(final(out)@) == owner_views(old(out)@) + module_owners_item(
            *item,
            char_views(namespace@),
            file_id@,
        ),
    decreases item, 0nat,
{
    let ghost start = owner_views(out@);
    let kind = text_chars(&item.kind);
    if !is_text(&kind, "mod_item") {
        assert(owner_views(out@) =~= start + Seq::<(Seq<char>, u64)>::empty());
        return;
    }
    match &item.name {
        None => {
            assert(owner_views(out@) =~= start + Seq::<(Seq<char>, u64)>::empty());
        },
        Some(n) => {
            let name = text_chars(n);
            let key = prefixed("module:", &join_path(namespace, &name));
            let id = SymbolId::new(file_id, crate::text::string_from_chars(&key).as_str());
            let ghost prev = out@;
            out.push((copy_chars(&key), id));
            assert(owner_views(out@) =~= owner_views(prev).push((key@, id@)));
            match &item.body {
                Some(b) => {
                    let mut inner = copy_parts(namespace);
                    let ghost before = inner@;
                    inner.push(name);
                    assert(char_views(inner@) =~= char_views(before).push(n@));
                    let ghost mid = owner_views(out@);
                    module_owners_of_list(b, &inner, file_id, out);
                    assert(owner_views(out@) =~= start + (seq![(key@, id@)] + module_owners_spec(
                        b@,
                        char_views(namespace@).push(n@),
                        file_id@,
                    )));
                },
                None => {
                    assert(owner_views(out@) =~= start + seq![(key@, id@)]);
                },
            }
        },
    }
}

/// Appends the module symbols a list of items declares.
fn module_owners_of_list(
    items: &Vec<SyntaxItem>,
    namespace: &Vec<Vec<char>>,
    file_id: FileId,
    out: &mut Vec<(Vec<char>, SymbolId)>,
)
    ensures
        owner_views(final(out)@) == owner_views(old(out)@) + module_owners_spec(
            items@,
            char_views(namespace@),
            file_id@,
        ),
    decreases items@, 1nat,
{
    let ghost start = owner_views(out@);
    let mut i: usize = 0;
    assert(items@.take(0) =~= Seq::<SyntaxItem>::empty());
    assert(start =~= start + module_owners_spec(items@.take(0), char_views(namespace@), file_id@));
    while i < items.len()
        invariant
            i <= items@.len(),
            owner_views(out@) == start + module_owners_spec(
                items@.take(i as int),
                char_views(namespace@),
                file_id@,
            ),
        decreases items@.len() - i,
    {
        module_owners_of_item(&items[i], namespace, file_id, out);
        assert(items@.take(i + 1).drop_last() =~= items@.take(i as int));
        assert(items@.take(i + 1).last() == items@[i as int]);
        assert(owner_views(out@) =~= start + module_owners_spec(
            items@.take(i + 1),
            char_views(namespace@),
            file_id@,
        ));
        i += 1;
    }
    assert(items@.take(items@.len() as int) =~= items@);
}

/// The namespace of a file, in characters.
fn file_namespace_chars(path: &RelativePath) -> (r: Vec<Vec<char>>)
    ensures
        char_views(r@) == path_namespace(path@),
{
    namespace_chars(&rust_source_layout(path).namespace)
}

/// The type symbols a file defines.
fn file_types_of(f: &SourceItems) -> (r: Vec<(Vec<char>, SymbolId)>)
    ensures
        owner_views(r@) == file_type_owners(*f),
{
    let namespace = file_namespace_chars(&f.relative_path);
    let keys = local_types(&f.items, &namespace);
    owned_types(&keys, f.file_id)
}

/// The module symbols a file declares.
fn file_modules_of(f: &SourceItems) -> (r: Vec<(Vec<char>, SymbolId)>)
    ensures
        owner_views(r@) == file_module_owners(*f),
{
    let namespace = file_namespace_chars(&f.relative_path);
    let mut out: Vec<(Vec<char>, SymbolId)> = Vec::new();
    module_owners_of_list(&f.items, &namespace, f.file_id, &mut out);
    assert(owner_views(out@) =~= Seq::<(Seq<char>, u64)>::empty() + file_module_owners(*f));
    out
}

/// Appends copies of the entries of `src` to `dst`.
fn append_owners(dst: &mut Vec<(Vec<char>, SymbolId)>, src: &Vec<(Vec<char>, SymbolId)>)
    ensures
        owner_views(final(dst)@) == owner_views(old(dst)@) + owner_views(src@),
{
    let ghost start = owner_views(dst@);
    let mut i: usize = 0;
    while i < src.len()
        invariant
            i <= src@.len(),
            owner_views(dst@) == start + owner_views(src@).take(i as int),
        decreases src@.len() - i,
    {
        let ghost prev = owner_views(dst@);
        dst.push((copy_chars(&src[i].0), src[i].1));
        assert(owner_views(dst@) =~= prev.push((src@[i as int].0@, src@[i as int].1@)));
        assert(owner_views(src@).take(i + 1) =~= owner_views(src@).take(i as int).push(
            (src@[i as int].0@, src@[i as int].1@),
        ));
        i += 1;
    }
    assert(owner_views(src@).take(src@.len() as int) =~= owner_views(src@));
}

/// Position of the crate with scope key `scope`, if the table holds it.
fn find_crate(crates: &Vec<CrateOwners>, scope: &Vec<char>) -> (r: Option<usize>)
    ensures
        match r {
            Some(i) => i < crates@.len() && crates@[i as int].scope@ == scope@,
            None => !scope_views(crates@).contains(scope@),
        },
        match r {
            Some(i) => scope_index(table_view(crates@), scope@) == i,
            None => scope_index(table_view(crates@), scope@) == -1,
        },
{
    let mut i: usize = 0;
    while i < crates.len()
        invariant
            i <= crates@.len(),
            forall|j: int| 0 <= j < i ==> crates@[j].scope@ != scope@,
        decreases crates@.len() - i,
    {
        if chars_equal(&crates[i].scope, scope) {
            proof {
                lemma_scope_index(table_view(crates@), scope@, i as int);
            }
            return Some(i);
        }
        i += 1;
    }
    proof {
        lemma_scope_index(table_view(crates@), scope@, -1);
        if scope_views(crates@).contains(scope@) {
            let j = choose|j: int| 0 <= j < scope_views(crates@).len() && scope_views(crates@)[j] == scope@;
            assert(crates@[j].scope@ == scope@);
        }
    }
    None
}


/// No two crates of a table share a scope key.
pub open spec fn unique_scopes(crates: Seq<CrateOwners>) -> bool {
    forall|i: int, j: int|
        0 <= i < j < crates.len() ==> (#[trigger] crates[i]).scope@ != (#[trigger] crates[j]).scope@
}

/// `b` is `a` with crates appended and entries appended to existing crates.
pub open spec fn extends(a: Seq<CrateOwners>, b: Seq<CrateOwners>) -> bool {
    &&& a.len() <= b.len()
    &&& forall|i: int|
        0 <= i < a.len() ==> {
            &&& (#[trigger] b[i]).scope@ == a[i].scope@
            &&& owner_views(a[i].types@).is_prefix_of(owner_views(b[i].types@))
            &&& owner_views(a[i].modules@).is_prefix_of(owner_views(b[i].modules@))
        }
}

/// The crate `scope` of the table holds every type and module symbol of the file.
pub open spec fn holds_file(crates: Seq<CrateOwners>, scope: Seq<char>, f: SourceItems) -> bool {
    exists|i: int|
        0 <= i < crates.len() && (#[trigger] crates[i]).scope@ == scope && (forall|e: (
            Seq<char>,
            u64,
        )| #[trigger] file_type_owners(f).contains(e) ==> owner_views(crates[i].types@).contains(e))
            && (forall|e: (Seq<char>, u64)| #[trigger]
            file_module_owners(f).contains(e) ==> owner_views(crates[i].modules@).contains(e))
}

/// Every entry of the table is a symbol one of the files defines.
pub open spec fn from_files(crates: Seq<CrateOwners>, files: Seq<SourceItems>) -> bool {
    &&& forall|i: int, j: int|
        #![trigger owner_views(crates[i].types@)[j]]
        0 <= i < crates.len() && 0 <= j < crates[i].types@.len() ==> exists|k: int|
            0 <= k < files.len() && file_type_owners(#[trigger] files[k]).contains(
                owner_views(crates[i].types@)[j],
            )
    &&& forall|i: int, j: int|
        #![trigger owner_views(crates[i].modules@)[j]]
        0 <= i < crates.len() && 0 <= j < crates[i].modules@.len() ==> exists|k: int|
            0 <= k < files.len() && file_module_owners(#[trigger] files[k]).contains(
                owner_views(crates[i].modules@)[j],
            )
}

proof fn lemma_prefix_contains<A>(a: Seq<A>, b: Seq<A>, e: A)
    requires
        a.is_prefix_of(b),
        a.contains(e),
    ensures
        b.contains(e),
{
    let k = choose|k: int| 0 <= k < a.len() && a[k] == e;
    assert(b[k] == e);
}

/// Position of the first crate with scope key `scope`, or -1.
pub open spec fn scope_index(tables: Seq<CrateTable>, scope: Seq<char>) -> int
    decreases tables.len(),
{
    if tables.len() == 0 {
        -1
    } else if tables[0].0 == scope {
        0
    } else {
        let r = scope_index(tables.drop_first(), scope);
        if r < 0 {
            -1
        } else {
            r + 1
        }
    }
}

proof fn lemma_scope_index(tables: Seq<CrateTable>, scope: Seq<char>, i: int)
    requires
        -1 <= i <= tables.len(),
        forall|j: int| 0 <= j < i ==> tables[j].0 != scope,
        i >= 0 ==> i < tables.len() && tables[i].0 == scope,
        i < 0 ==> forall|j: int| 0 <= j < tables.len() ==> tables[j].0 != scope,
    ensures
        scope_index(tables, scope) == i,
    decreases tables.len(),
{
    if tables.len() > 0 && tables[0].0 != scope {
        lemma_scope_index(tables.drop_first(), scope, if i < 0 { -1 } else { i - 1 });
    }
}

/// The table after adding a file's type and module symbols to the crate `scope`, which
/// is created at the end when the table lacks it.
pub open spec fn add_file_spec(tables: Seq<CrateTable>, scope: Seq<char>, f: SourceItems) -> Seq<
    CrateTable,
> {
    let i = scope_index(tables, scope);
    if i < 0 {
        tables.push((scope, file_type_owners(f), file_module_owners(f)))
    } else {
        tables.update(
            i,
            (scope, tables[i].1 + file_type_owners(f), tables[i].2 + file_module_owners(f)),
        )
    }
}

/// Adds the type and module symbols of a file to the crate `scope`, creating the crate
/// when the table lacks it.
fn add_file_to_crate(crates: &mut Vec<CrateOwners>, scope: &Vec<char>, f: &SourceItems)
    requires
        unique_scopes(old(crates)@),
    ensures
        unique_scopes(final(crates)@),
        extends(old(crates)@, final(crates)@),
        holds_file(final(crates)@, scope@, *f),
        table_view(final(crates)@) == add_file_spec(table_view(old(crates)@), scope@, *f),
        scope_views(final(crates)@) == (if scope_views(old(crates)@).contains(scope@) {
            scope_views(old(crates)@)
        } else {
            scope_views(old(crates)@).push(scope@)
        }),
        forall|i: int|
            0 <= i < final(crates)@.len() ==> {
                let c = #[trigger] final(crates)@[i];
                if i < old(crates)@.len() && old(crates)@[i].scope@ != scope@ {
                    owner_views(c.types@) == owner_views(old(crates)@[i].types@)
                        && owner_views(c.modules@) == owner_views(old(crates)@[i].modules@)
                } else {
                    &&& c.scope@ == scope@
                    &&& owner_views(c.types@) == (if i < old(crates)@.len() {
                        owner_views(old(crates)@[i].types@)
                    } else {
                        Seq::empty()
                    }) + file_type_owners(*f)
                    &&& owner_views(c.modules@) == (if i < old(crates)@.len() {
                        owner_views(old(crates)@[i].modules@)
                    } else {
                        Seq::empty()
                    }) + file_module_owners(*f)
                }
            },
{
    let types = file_types_of(f);
    let modules = file_modules_of(f);
    let ghost old_crates = crates@;
    match find_crate(crates, scope) {
        Some(i) => {
            assert(scope_views(old_crates)[i as int] == scope@);
            assert(scope_views(old_crates).contains(scope@));
            let mut c = crates.remove(i);
            let ghost before = c;
            append_owners(&mut c.types, &types);
            append_owners(&mut c.modules, &modules);
            crates.insert(i, c);
            assert(scope_views(crates@) =~= scope_views(old_crates));
            assert forall|a: int| 0 <= a < crates@.len() implies #[trigger] crates@[a] == (if a
                == i {
                c
            } else {
                old_crates[a]
            }) by {}
            assert(owner_views(before.types@).is_prefix_of(owner_views(c.types@)));
            assert(owner_views(before.modules@).is_prefix_of(owner_views(c.modules@)));
            assert forall|e: (Seq<char>, u64)| #[trigger]
                file_type_owners(*f).contains(e) implies owner_views(c.types@).contains(e) by {
                let k = choose|k: int|
                    0 <= k < file_type_owners(*f).len() && file_type_owners(*f)[k] == e;
                assert(owner_views(c.types@)[owner_views(before.types@).len() + k] == e);
            }
            assert forall|e: (Seq<char>, u64)| #[trigger]
                file_module_owners(*f).contains(e) implies owner_views(c.modules@).contains(e) by {
                let k = choose|k: int|
                    0 <= k < file_module_owners(*f).len() && file_module_owners(*f)[k] == e;
                assert(owner_views(c.modules@)[owner_views(before.modules@).len() + k] == e);
            }
            assert(crates@[i as int] == c);
            assert(table_view(crates@) =~= add_file_spec(table_view(old_crates), scope@, *f));
        },
        None => {
            let mut t: Vec<(Vec<char>, SymbolId)> = Vec::new();
            let mut m: Vec<(Vec<char>, SymbolId)> = Vec::new();
            append_owners(&mut t, &types);
            append_owners(&mut m, &modules);
            assert(owner_views(t@) =~= Seq::<(Seq<char>, u64)>::empty() + file_type_owners(*f));
            assert(owner_views(m@) =~= Seq::<(Seq<char>, u64)>::empty() + file_module_owners(*f));
            let c = CrateOwners { scope: copy_chars(scope), types: t, modules: m };
            crates.push(c);
            assert(scope_views(crates@) =~= scope_views(old_crates).push(scope@));
            assert forall|a: int, b: int|
                0 <= a < b < crates@.len() implies (#[trigger] crates@[a]).scope@
                != (#[trigger] crates@[b]).scope@ by {
                if b == crates@.len() - 1 {
                    assert(scope_views(old_crates)[a] == old_crates[a].scope@);
                }
            }
            assert forall|e: (Seq<char>, u64)| #[trigger]
                file_type_owners(*f).contains(e) implies owner_views(c.types@).contains(e) by {}
            assert forall|e: (Seq<char>, u64)| #[trigger]
                file_module_owners(*f).contains(e) implies owner_views(c.modules@).contains(e) by {}
            assert(crates@[crates@.len() - 1] == c);
            assert(table_view(crates@) =~= add_file_spec(table_view(old_crates), scope@, *f));
        },
    }
}


/// The text views of an optional character vector.
pub open spec fn opt_chars(v: Option<Vec<char>>) -> Option<Seq<char>> {
    match v {
        Some(t) => Some(t@),
        None => None,
    }
}

fn has_module_key(c: &CrateOwners, key: &Vec<char>) -> (b: bool)
    ensures
        b == has_module(crate_view(*c), key@),
{
    let ghost mv = type_keys(owner_views(c.modules@));
    let mut i: usize = 0;
    while i < c.modules.len()
        invariant
            i <= c.modules@.len(),
            mv == type_keys(owner_views(c.modules@)),
            forall|j: int| 0 <= j < i ==> mv[j] != key@,
        decreases c.modules@.len() - i,
    {
        assert(mv[i as int] == c.modules@[i as int].0@);
        if chars_equal(&c.modules[i].0, key) {
            return true;
        }
        i += 1;
    }
    false
}

/// The key of the module a file's path makes it, when it is below its crate root.
fn module_key_for_path(path: &RelativePath) -> (r: Option<Vec<char>>)
    ensures
        opt_chars(r) == file_module_key(path@),
{
    let namespace = file_namespace_chars(path);
    if namespace.len() == 0 {
        return None;
    }
    let mut sep: Vec<char> = Vec::new();
    sep.push(':');
    sep.push(':');
    assert(sep@ =~= path_sep());
    Some(prefixed("module:", &join_chars(&namespace, &sep)))
}

/// The crates that could hold a file its path does not place.
fn candidates_for(crates: &Vec<CrateOwners>, path: &RelativePath) -> (r: Vec<String>)
    ensures
        r@.map_values(|s: String| s@) == candidate_scopes(table_view(crates@), path@),
{
    let module_key = module_key_for_path(path);
    let prefix = package_prefix(path);
    let mut r: Vec<String> = Vec::new();
    let mut i: usize = 0;
    assert(crates@.take(0) =~= Seq::<CrateOwners>::empty());
    while i < crates.len()
        invariant
            i <= crates@.len(),
            opt_chars(module_key) == file_module_key(path@),
            prefix@ == rust_layout_spec(path_segments(path@)).0,
            r@.map_values(|s: String| s@) == candidate_scopes(
                table_view(crates@).take(i as int),
                path@,
            ),
        decreases crates@.len() - i,
    {
        let c = &crates[i];
        assert(table_view(crates@).take(i + 1).drop_last() =~= table_view(crates@).take(i as int));
        assert(table_view(crates@).take(i + 1).last() == crate_view(*c));
        match &module_key {
            Some(k) => {
                let scope_text = crate::text::string_from_chars(&c.scope);
                if scope_matches_package(scope_text.as_str(), prefix.as_str()) && has_module_key(c, k) {
                    let ghost prev = r@;
                    r.push(scope_text);
                    assert(r@.map_values(|s: String| s@) =~= prev.map_values(|s: String| s@).push(
                        c.scope@,
                    ));
                }
            },
            None => {},
        }
        i += 1;
    }
    assert(table_view(crates@).take(crates@.len() as int) =~= table_view(crates@));
    r
}

/// The crate a file belongs to: the one its path shows, else the binary crate a nested
/// `src/bin` path anchors when the table knows it, else the preferred crate of its
/// package that declares the module its path makes it.
pub fn resolved_crate_scope_for_file(crates: &Vec<CrateOwners>, path: &RelativePath) -> (r: Option<
    Vec<char>,
>)
    ensures
        opt_chars(r) == resolved_scope_spec(table_view(crates@), path@),
{
    assert(scope_views(crates@) =~= table_scopes(table_view(crates@)));
    if let Some(scope) = direct_crate_scope(path) {
        return Some(text_chars(&scope));
    }
    if let Some(scope) = path_anchored_crate_scope(path) {
        let chars = text_chars(&scope);
        if find_crate(crates, &chars).is_some() {
            proof {
                let i = choose|i: int| 0 <= i < crates@.len() && crates@[i].scope@ == chars@;
                assert(table_scopes(table_view(crates@))[i] == chars@);
            }
            return Some(chars);
        }
    }
    let candidates = candidates_for(crates, path);
    if candidates.len() == 1 {
        assert(candidates@.map_values(|s: String| s@)[0] == candidates@[0]@);
        return Some(text_chars(&candidates[0]));
    }
    match preferred_crate_scope(candidates) {
        Some(scope) => Some(text_chars(&scope)),
        None => None,
    }
}

/// The module symbol that owns a file's definitions: the one the crate declares for the
/// module the file's path makes it.
pub fn module_owner_for_file(path: &RelativePath, modules: &Vec<(Vec<char>, SymbolId)>) -> (r:
    Option<SymbolId>)
    ensures
        match (r, file_module_key(path@)) {
            (Some(id), Some(k)) => type_owner_spec(owner_views(modules@), k) == Some(id@),
            (None, Some(k)) => type_owner_spec(owner_views(modules@), k) is None,
            (None, None) => true,
            (Some(_), None) => false,
        },
{
    match module_key_for_path(path) {
        None => None,
        Some(k) => crate::extract::type_owner(modules, &k),
    }
}


/// What adding a file's symbols to the crate `scope` does to a table, as
/// `add_file_to_crate` states it.
pub open spec fn added_file(
    old: Seq<CrateOwners>,
    new: Seq<CrateOwners>,
    scope: Seq<char>,
    f: SourceItems,
) -> bool {
    &&& old.len() <= new.len()
    &&& forall|i: int|
        0 <= i < new.len() ==> {
            let c = #[trigger] new[i];
            if i < old.len() && old[i].scope@ != scope {
                owner_views(c.types@) == owner_views(old[i].types@) && owner_views(c.modules@)
                    == owner_views(old[i].modules@)
            } else {
                &&& c.scope@ == scope
                &&& owner_views(c.types@) == (if i < old.len() {
                    owner_views(old[i].types@)
                } else {
                    Seq::empty()
                }) + file_type_owners(f)
                &&& owner_views(c.modules@) == (if i < old.len() {
                    owner_views(old[i].modules@)
                } else {
                    Seq::empty()
                }) + file_module_owners(f)
            }
        }
}

proof fn lemma_added_keeps_from_files(
    old: Seq<CrateOwners>,
    new: Seq<CrateOwners>,
    files: Seq<SourceItems>,
    k: int,
    scope: Seq<char>,
)
    requires
        from_files(old, files),
        0 <= k < files.len(),
        added_file(old, new, scope, files[k]),
    ensures
        from_files(new, files),
{
    assert forall|i: int, j: int|
        #![trigger owner_views(new[i].types@)[j]]
        0 <= i < new.len() && 0 <= j < new[i].types@.len() implies exists|m: int|
        0 <= m < files.len() && file_type_owners(#[trigger] files[m]).contains(
            owner_views(new[i].types@)[j],
        ) by {
        let c = new[i];
        let e = owner_views(c.types@)[j];
        if i < old.len() && old[i].scope@ != scope {
            assert(owner_views(c.types@) == owner_views(old[i].types@));
            assert(owner_views(c.types@).len() == c.types@.len());
            assert(owner_views(old[i].types@).len() == old[i].types@.len());
            assert(owner_views(old[i].types@)[j] == e);
            let m = choose|m: int| 0 <= m < files.len() && file_type_owners(files[m]).contains(e);
            assert(file_type_owners(files[m]).contains(e));
        } else {
            let base = if i < old.len() {
                owner_views(old[i].types@)
            } else {
                Seq::empty()
            };
            assert(owner_views(c.types@) == base + file_type_owners(files[k]));
            assert(owner_views(c.types@).len() == c.types@.len());
            if j < base.len() {
                assert(owner_views(old[i].types@)[j] == e);
                let m = choose|m: int| 0 <= m < files.len() && file_type_owners(files[m]).contains(e);
                assert(file_type_owners(files[m]).contains(e));
            } else {
                assert(file_type_owners(files[k])[j - base.len()] == e);
                assert(file_type_owners(files[k]).contains(e));
            }
        }
    }
    assert forall|i: int, j: int|
        #![trigger owner_views(new[i].modules@)[j]]
        0 <= i < new.len() && 0 <= j < new[i].modules@.len() implies exists|m: int|
        0 <= m < files.len() && file_module_owners(#[trigger] files[m]).contains(
            owner_views(new[i].modules@)[j],
        ) by {
        let c = new[i];
        let e = owner_views(c.modules@)[j];
        if i < old.len() && old[i].scope@ != scope {
            assert(owner_views(c.modules@) == owner_views(old[i].modules@));
            assert(owner_views(c.modules@).len() == c.modules@.len());
            assert(owner_views(old[i].modules@).len() == old[i].modules@.len());
            assert(owner_views(old[i].modules@)[j] == e);
            let m = choose|m: int| 0 <= m < files.len() && file_module_owners(files[m]).contains(e);
            assert(file_module_owners(files[m]).contains(e));
        } else {
            let base = if i < old.len() {
                owner_views(old[i].modules@)
            } else {
                Seq::empty()
            };
            assert(owner_views(c.modules@) == base + file_module_owners(files[k]));
            assert(owner_views(c.modules@).len() == c.modules@.len());
            if j < base.len() {
                assert(owner_views(old[i].modules@)[j] == e);
                let m = choose|m: int| 0 <= m < files.len() && file_module_owners(files[m]).contains(e);
                assert(file_module_owners(files[m]).contains(e));
            } else {
                assert(file_module_owners(files[k])[j - base.len()] == e);
                assert(file_module_owners(files[k]).contains(e));
            }
        }
    }
}

proof fn lemma_extends_holds(old: Seq<CrateOwners>, new: Seq<CrateOwners>, scope: Seq<char>, f: SourceItems)
    requires
        extends(old, new),
        holds_file(old, scope, f),
    ensures
        holds_file(new, scope, f),
{
    let i = choose|i: int|
        0 <= i < old.len() && (#[trigger] old[i]).scope@ == scope && (forall|e: (Seq<char>, u64)|
            #[trigger] file_type_owners(f).contains(e) ==> owner_views(old[i].types@).contains(e))
            && (forall|e: (Seq<char>, u64)| #[trigger]
            file_module_owners(f).contains(e) ==> owner_views(old[i].modules@).contains(e));
    assert(new[i].scope@ == scope);
    assert forall|e: (Seq<char>, u64)| #[trigger]
        file_type_owners(f).contains(e) implies owner_views(new[i].types@).contains(e) by {
        lemma_prefix_contains(owner_views(old[i].types@), owner_views(new[i].types@), e);
    }
    assert forall|e: (Seq<char>, u64)| #[trigger]
        file_module_owners(f).contains(e) implies owner_views(new[i].modules@).contains(e) by {
        lemma_prefix_contains(owner_views(old[i].modules@), owner_views(new[i].modules@), e);
    }
}

proof fn lemma_extends_trans(a: Seq<CrateOwners>, b: Seq<CrateOwners>, c: Seq<CrateOwners>)
    requires
        extends(a, b),
        extends(b, c),
    ensures
        extends(a, c),
{
    assert forall|i: int| 0 <= i < a.len() implies {
        &&& (#[trigger] c[i]).scope@ == a[i].scope@
        &&& owner_views(a[i].types@).is_prefix_of(owner_views(c[i].types@))
        &&& owner_views(a[i].modules@).is_prefix_of(owner_views(c[i].modules@))
    } by {
        assert(b[i].scope@ == a[i].scope@);
    }
}

/// The table after the files whose path shows their crate, in order, and the positions of
/// the other files.
pub open spec fn direct_phase(files: Seq<SourceItems>) -> (Seq<CrateTable>, Seq<int>)
    decreases files.len(),
{
    if files.len() == 0 {
        (Seq::empty(), Seq::empty())
    } else {
        let (tables, pending) = direct_phase(files.drop_last());
        let k = files.len() - 1;
        match direct_scope_spec(path_segments(files[k].relative_path@)) {
            Some(scope) => (add_file_spec(tables, scope, files[k]), pending),
            None => (tables, pending.push(k)),
        }
    }
}

/// One pass over the pending files, in order: a file whose crate the table resolves adds
/// its symbols to that crate, any other stays pending. The table, the files still pending
/// and whether any file was placed.
pub open spec fn owner_pass(tables: Seq<CrateTable>, files: Seq<SourceItems>, pending: Seq<int>) -> (
    Seq<CrateTable>,
    Seq<int>,
    bool,
)
    decreases pending.len(),
{
    if pending.len() == 0 {
        (tables, Seq::empty(), false)
    } else {
        let (t1, remaining, any) = owner_pass(tables, files, pending.drop_last());
        let f = files[pending.last()];
        match resolved_scope_spec(t1, f.relative_path@) {
            None => (t1, remaining.push(pending.last()), any),
            Some(scope) => (add_file_spec(t1, scope, f), remaining, true),
        }
    }
}

/// Passes over the pending files until one places none.
pub open spec fn owner_passes(tables: Seq<CrateTable>, files: Seq<SourceItems>, pending: Seq<int>) -> Seq<
    CrateTable,
>
    decreases pending.len(),
{
    if pending.len() == 0 {
        tables
    } else {
        let (t1, remaining, any) = owner_pass(tables, files, pending);
        if any && remaining.len() < pending.len() {
            owner_passes(t1, files, remaining)
        } else {
            t1
        }
    }
}

/// The type and module symbols of each crate of a repository: the files whose path shows
/// their crate first, in order, then pass by pass the files whose crate the symbols
/// gathered so far resolve, until a pass resolves none.
pub open spec fn crate_tables(files: Seq<SourceItems>) -> Seq<CrateTable> {
    owner_passes(direct_phase(files).0, files, direct_phase(files).1)
}

/// A pass that places no file leaves the table as it was, and keeps every file pending.
proof fn lemma_owner_pass_unchanged(tables: Seq<CrateTable>, files: Seq<SourceItems>, pending: Seq<int>)
    requires
        !owner_pass(tables, files, pending).2,
    ensures
        owner_pass(tables, files, pending).0 == tables,
        owner_pass(tables, files, pending).1.len() == pending.len(),
    decreases pending.len(),
{
    if pending.len() > 0 {
        lemma_owner_pass_unchanged(tables, files, pending.drop_last());
    }
}

/// Positions as integers.
pub open spec fn pending_ints(v: Seq<usize>) -> Seq<int> {
    v.map_values(|k: usize| k as int)
}

/// The type and module symbols of each crate of a repository, gathered in passes: the
/// files whose path shows their crate first, then, pass by pass, the files whose crate
/// the symbols gathered so far resolve, until a pass resolves none. Scopes are unique,
/// every entry is a symbol one of the files defines, and each crate a file's path shows
/// holds that file's symbols.
pub fn collect_repository_symbol_owners(files: &Vec<SourceItems>) -> (r: Vec<CrateOwners>)
    ensures
        table_view(r@) == crate_tables(files@),
        unique_scopes(r@),
        from_files(r@, files@),
        forall|k: int|
            0 <= k < files@.len() ==> match direct_scope_spec(
                path_segments((#[trigger] files@[k]).relative_path@),
            ) {
                Some(scope) => holds_file(r@, scope, files@[k]),
                None => true,
            },
{
    let mut crates: Vec<CrateOwners> = Vec::new();
    let mut pending: Vec<usize> = Vec::new();
    let mut k: usize = 0;
    assert(files@.take(0) =~= Seq::<SourceItems>::empty());
    assert(table_view(crates@) =~= Seq::<CrateTable>::empty());
    assert(pending_ints(pending@) =~= Seq::<int>::empty());
    while k < files.len()
        invariant
            k <= files@.len(),
            direct_phase(files@.take(k as int)) == (table_view(crates@), pending_ints(pending@)),
            unique_scopes(crates@),
            from_files(crates@, files@),
            forall|m: int| 0 <= m < pending@.len() ==> #[trigger] pending@[m] < files@.len(),
            forall|m: int|
                0 <= m < k ==> match direct_scope_spec(
                    path_segments((#[trigger] files@[m]).relative_path@),
                ) {
                    Some(scope) => holds_file(crates@, scope, files@[m]),
                    None => true,
                },
        decreases files@.len() - k,
    {
        assert(files@.take(k + 1).drop_last() =~= files@.take(k as int));
        assert(files@.take(k + 1).last() == files@[k as int]);
        match direct_crate_scope(&files[k].relative_path) {
            Some(scope) => {
                let chars = text_chars(&scope);
                let ghost before = crates@;
                add_file_to_crate(&mut crates, &chars, &files[k]);
                proof {
                    lemma_added_keeps_from_files(before, crates@, files@, k as int, chars@);
                    assert forall|m: int| 0 <= m < k implies match direct_scope_spec(
                        path_segments((#[trigger] files@[m]).relative_path@),
                    ) {
                        Some(s) => holds_file(crates@, s, files@[m]),
                        None => true,
                    } by {
                        if let Some(s) = direct_scope_spec(path_segments(files@[m].relative_path@)) {
                            lemma_extends_holds(before, crates@, s, files@[m]);
                        }
                    }
                }
            },
            None => {
                let ghost before = pending@;
                pending.push(k);
                assert(pending_ints(pending@) =~= pending_ints(before).push(k as int));
            },
        }
        k += 1;
    }
    assert(files@.take(k as int) =~= files@);
    let ghost after_direct = crates@;
    while pending.len() > 0
        invariant
            unique_scopes(crates@),
            from_files(crates@, files@),
            extends(after_direct, crates@),
            forall|m: int| 0 <= m < pending@.len() ==> #[trigger] pending@[m] < files@.len(),
            owner_passes(table_view(crates@), files@, pending_ints(pending@)) == crate_tables(
                files@,
            ),
        ensures
            table_view(crates@) == crate_tables(files@),
        decreases pending@.len(),
    {
        let mut remaining: Vec<usize> = Vec::new();
        let mut resolved_any = false;
        let mut j: usize = 0;
        let ghost pass_start = table_view(crates@);
        assert(pending_ints(pending@).take(0) =~= Seq::<int>::empty());
        assert(pending_ints(remaining@) =~= Seq::<int>::empty());
        while j < pending.len()
            invariant
                j <= pending@.len(),
                owner_pass(pass_start, files@, pending_ints(pending@).take(j as int)) == (
                    table_view(crates@),
                    pending_ints(remaining@),
                    resolved_any,
                ),
                unique_scopes(crates@),
                from_files(crates@, files@),
                extends(after_direct, crates@),
                forall|m: int| 0 <= m < pending@.len() ==> #[trigger] pending@[m] < files@.len(),
                forall|m: int| 0 <= m < remaining@.len() ==> #[trigger] remaining@[m] < files@.len(),
                remaining@.len() + (if resolved_any {
                    1int
                } else {
                    0int
                }) <= j,
            decreases pending@.len() - j,
        {
            let f = pending[j];
            assert(pending_ints(pending@).take(j + 1).drop_last() =~= pending_ints(pending@).take(
                j as int,
            ));
            assert(pending_ints(pending@).take(j + 1).last() == f as int);
            match resolved_crate_scope_for_file(&crates, &files[f].relative_path) {
                None => {
                    let ghost before = remaining@;
                    remaining.push(f);
                    assert(pending_ints(remaining@) =~= pending_ints(before).push(f as int));
                },
                Some(scope) => {
                    let ghost before = crates@;
                    add_file_to_crate(&mut crates, &scope, &files[f]);
                    proof {
                        lemma_added_keeps_from_files(before, crates@, files@, f as int, scope@);
                        lemma_extends_trans(after_direct, before, crates@);
                    }
                    resolved_any = true;
                },
            }
            j += 1;
        }
        assert(pending_ints(pending@).take(j as int) =~= pending_ints(pending@));
        if !resolved_any {
            proof {
                lemma_owner_pass_unchanged(pass_start, files@, pending_ints(pending@));
            }
            break;
        }
        pending = remaining;
        proof {
            if pending@.len() == 0 {
                assert(pending_ints(pending@) =~= Seq::<int>::empty());
            }
        }
    }
    proof {
        assert forall|m: int| 0 <= m < files@.len() implies match direct_scope_spec(
            path_segments((#[trigger] files@[m]).relative_path@),
        ) {
            Some(s) => holds_file(crates@, s, files@[m]),
            None => true,
        } by {
            if let Some(s) = direct_scope_spec(path_segments(files@[m].relative_path@)) {
                lemma_extends_holds(after_direct, crates@, s, files@[m]);
            }
        }
    }
    crates
}


/// The `use` aliases a file declares.
pub open spec fn file_alias_entries(f: SourceItems) -> Seq<AliasEntry> {
    aliases_spec(f.items@, path_namespace(f.relative_path@))
}

/// The `use` aliases the files that belong to crate `scope` declare, file by file.
pub open spec fn crate_aliases_spec(files: Seq<SourceItems>, tables: Seq<CrateTable>, scope: Seq<char>) -> Seq<
    AliasEntry,
>
    decreases files.len(),
{
    if files.len() == 0 {
        Seq::empty()
    } else {
        let f = files.last();
        let rest = crate_aliases_spec(files.drop_last(), tables, scope);
        if resolved_scope_spec(tables, f.relative_path@) == Some(scope) {
            rest + file_alias_entries(f)
        } else {
            rest
        }
    }
}

fn copy_aliases(dst: &mut Vec<(Vec<char>, Vec<char>, Vec<char>)>, src: &Vec<(Vec<char>, Vec<char>, Vec<char>)>)
    ensures
        alias_views(final(dst)@) == alias_views(old(dst)@) + alias_views(src@),
{
    let ghost start = alias_views(dst@);
    let mut i: usize = 0;
    while i < src.len()
        invariant
            i <= src@.len(),
            alias_views(dst@) == start + alias_views(src@).take(i as int),
        decreases src@.len() - i,
    {
        let ghost prev = alias_views(dst@);
        let e = &src[i];
        dst.push((copy_chars(&e.0), copy_chars(&e.1), copy_chars(&e.2)));
        assert(alias_views(dst@) =~= prev.push((e.0@, e.1@, e.2@)));
        assert(alias_views(src@).take(i + 1) =~= alias_views(src@).take(i as int).push(
            (e.0@, e.1@, e.2@),
        ));
        i += 1;
    }
    assert(alias_views(src@).take(src@.len() as int) =~= alias_views(src@));
}

/// The `use` aliases the files of crate `scope` declare, file by file.
pub fn collect_crate_use_aliases(
    files: &Vec<SourceItems>,
    crates: &Vec<CrateOwners>,
    scope: &Vec<char>,
) -> (r: Vec<(Vec<char>, Vec<char>, Vec<char>)>)
    ensures
        alias_views(r@) == crate_aliases_spec(files@, table_view(crates@), scope@),
{
    let mut r: Vec<(Vec<char>, Vec<char>, Vec<char>)> = Vec::new();
    let mut k: usize = 0;
    assert(files@.take(0) =~= Seq::<SourceItems>::empty());
    while k < files.len()
        invariant
            k <= files@.len(),
            alias_views(r@) == crate_aliases_spec(files@.take(k as int), table_view(crates@), scope@),
        decreases files@.len() - k,
    {
        let f = &files[k];
        assert(files@.take(k + 1).drop_last() =~= files@.take(k as int));
        assert(files@.take(k + 1).last() == *f);
        match resolved_crate_scope_for_file(crates, &f.relative_path) {
            Some(s) => {
                if chars_equal(&s, scope) {
                    let namespace = file_namespace_chars(&f.relative_path);
                    let found = collect_use_aliases(&f.items, &namespace);
                    copy_aliases(&mut r, &found);
                }
            },
            None => {},
        }
        k += 1;
    }
    assert(files@.take(files@.len() as int) =~= files@);
    r
}

/// The symbols of one file of crate `c`, resolved with the crate's type symbols and
/// `use` aliases, owned by the crate's module symbol for the file.
fn crate_file_symbols(
    f: &SourceItems,
    c: &CrateOwners,
    aliases: Vec<(Vec<char>, Vec<char>, Vec<char>)>,
) -> (r: Vec<ExtractedSymbol>)
    ensures
        symbols_match(
            r@,
            visit_list_spec(
                f.items@,
                file_context(
                    f.relative_path@,
                    f.file_id@,
                    module_owner_of(owner_views(c.modules@), f.relative_path@),
                ),
                owner_views(c.types@),
                alias_views(aliases@),
                Seq::empty(),
            ),
            f.file_id,
            f.relative_path@,
        ),
{
    let mut types: Vec<(Vec<char>, SymbolId)> = Vec::new();
    append_owners(&mut types, &c.types);
    assert(owner_views(types@) =~= owner_views(c.types@));
    let mut keys: Vec<Vec<char>> = Vec::new();
    let mut i: usize = 0;
    while i < types.len()
        invariant
            i <= types@.len(),
            char_views(keys@) == type_keys(owner_views(types@)).take(i as int),
        decreases types@.len() - i,
    {
        let ghost prev = keys@;
        keys.push(copy_chars(&types[i].0));
        assert(char_views(keys@) =~= char_views(prev).push(types@[i as int].0@));
        assert(type_keys(owner_views(types@)).take(i + 1) =~= type_keys(owner_views(types@)).take(
            i as int,
        ).push(types@[i as int].0@));
        i += 1;
    }
    assert(type_keys(owner_views(types@)).take(types@.len() as int) =~= type_keys(
        owner_views(types@),
    ));
    let tables = Tables { types, keys, aliases };
    assert(tables.types_view() =~= owner_views(c.types@));
    let owner = module_owner_for_file(&f.relative_path, &c.modules);
    let ghost owner_view = match owner {
        Some(id) => Some(id@),
        None => None,
    };
    assert(owner_view == module_owner_of(owner_views(c.modules@), f.relative_path@));
    let ctx = Context {
        file: f.file_id,
        namespace: file_namespace_chars(&f.relative_path),
        owner,
        member: None,
    };
    assert(ctx.view_ctx() == file_context(f.relative_path@, f.file_id@, owner_view));
    let mut symbols: Vec<ExtractedSymbol> = Vec::new();
    crate::extract::visit_item_list(
        &f.items,
        &ctx,
        &tables,
        f.file_id,
        &f.relative_path,
        &mut symbols,
        Ghost(Seq::empty()),
    );
    symbols
}

/// The module symbol that owns the definitions of the file at `path`, among a crate's
/// module entries: the one for the module the path makes the file, if any.
pub open spec fn module_owner_of(modules: Seq<(Seq<char>, u64)>, path: Seq<char>) -> Option<u64> {
    match file_module_key(path) {
        Some(k) => type_owner_spec(modules, k),
        None => None,
    }
}

/// Whether `syms` are the symbols of the file at position `k` of a repository's files: when
/// its crate resolves among the crates the files make, its items read under its path's
/// namespace, owned by the crate's module symbol for it, with the crate's type symbols and
/// `use` aliases; otherwise its items read on their own.
pub open spec fn repository_file_symbols(syms: Seq<ExtractedSymbol>, files: Seq<SourceItems>, k: int) -> bool {
    let f = files[k];
    let tables = crate_tables(files);
    match resolved_scope_spec(tables, f.relative_path@) {
        Some(scope) => if scope_index(tables, scope) >= 0 {
            let t = tables[scope_index(tables, scope)];
            symbols_match(
                syms,
                visit_list_spec(
                    f.items@,
                    file_context(f.relative_path@, f.file_id@, module_owner_of(t.2, f.relative_path@)),
                    t.1,
                    crate_aliases_spec(files, tables, scope),
                    Seq::empty(),
                ),
                f.file_id,
                f.relative_path@,
            )
        } else {
            detached_file_symbols(syms, f)
        },
        None => detached_file_symbols(syms, f),
    }
}

/// Whether `syms` are the symbols of file `f` read on its own, outside any crate's module
/// tree: its items at the top of no module, with only its own types and `use` aliases.
pub open spec fn detached_file_symbols(syms: Seq<ExtractedSymbol>, f: SourceItems) -> bool {
    symbols_match(
        syms,
        visit_list_spec(
            f.items@,
            namespace_context(Seq::empty(), f.file_id@, None),
            namespace_types(f.items@, Seq::empty(), f.file_id@),
            aliases_spec(f.items@, Seq::empty()),
            Seq::empty(),
        ),
        f.file_id,
        f.relative_path@,
    )
}

/// The symbols of a file read on its own, outside any module.
fn extract_detached(f: &SourceItems) -> (r: Vec<ExtractedSymbol>)
    ensures
        detached_file_symbols(r@, *f),
{
    let namespace: Vec<Vec<char>> = Vec::new();
    assert(char_views(namespace@) =~= Seq::<Seq<char>>::empty());
    extract_namespace_symbols(&f.items, f.file_id, &f.relative_path, namespace)
}

/// The symbols of a repository's files, file by file: a file whose crate resolves is read
/// with its crate's type symbols and `use` aliases and owned by the crate's module symbol
/// for it; any other file is read on its own, outside any module.
pub fn extract_crate_symbols(files: &Vec<SourceItems>) -> (r: Vec<ExtractedSymbol>)
    ensures
        exists|parts: Seq<Seq<ExtractedSymbol>>|
            parts.len() == files@.len() && r@ == parts.flatten() && forall|k: int|
                0 <= k < files@.len() ==> repository_file_symbols(#[trigger] parts[k], files@, k),
{
    let crates = collect_repository_symbol_owners(files);
    let mut out: Vec<ExtractedSymbol> = Vec::new();
    let ghost mut parts: Seq<Seq<ExtractedSymbol>> = Seq::empty();
    let mut k: usize = 0;
    while k < files.len()
        invariant
            k <= files@.len(),
            parts.len() == k,
            out@ == parts.flatten(),
            forall|m: int| 0 <= m < k ==> repository_file_symbols(#[trigger] parts[m], files@, m),
            table_view(crates@) == crate_tables(files@),
        decreases files@.len() - k,
    {
        let f = &files[k];
        let found = match resolved_crate_scope_for_file(&crates, &f.relative_path) {
            Some(scope) => match find_crate(&crates, &scope) {
                Some(i) => {
                    let aliases = collect_crate_use_aliases(files, &crates, &scope);
                    let syms = crate_file_symbols(f, &crates[i], aliases);
                    assert(crate_view(crates@[i as int]) == table_view(crates@)[i as int]);
                    syms
                },
                None => extract_detached(f),
            },
            None => extract_detached(f),
        };
        assert(repository_file_symbols(found@, files@, k as int));
        let ghost prev = parts;
        let mut part = found;
        out.append(&mut part);
        proof {
            parts = parts.push(found@);
            assert(parts.drop_last() =~= prev);
            assert(parts.flatten() == prev.flatten() + found@) by {
                prev.lemma_flatten_push(found@);
            }
        }
        k += 1;
    }
    out
}

} // verus!
