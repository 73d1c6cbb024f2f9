//! The repository code graph: filesystem entities, symbols and typed relationships.

use std::collections::BTreeMap;
use std::path::PathBuf;

use vstd::prelude::*;
use vstd::string::*;

use crate::error::{GraphError, GraphErrorView};
use crate::ids::{
    id_string, id_text, path_entry_hash, repository_hash, stable_hash, stable_hash_spec,
    symbol_hash, utf8_parts, DirectoryId, FileId, RepositoryId, SymbolId,
};
use crate::path::{display_text, parent_text, relative_path_result, RelativePath};
use crate::syntax::{SourcePosition, SourceSpan};
use crate::text::{chars_of, trim, trim_range};

verus! {

/// The filesystem path type of std, carried through as an opaque value.
#[verifier::external_type_specification]
#[verifier::external_body]
pub struct ExPathBuf(PathBuf);

/// `PathBuf::clone`: trusted to return a path equal to the one cloned,
/// as std documents for `Clone`.
pub assume_specification[ <PathBuf as Clone>::clone ](p: &PathBuf) -> (r: PathBuf)
    ensures
        r == *p,
;

/// Whether the text holds only whitespace (what `str::trim().is_empty()` tests).
pub open spec fn is_blank(s: Seq<char>) -> bool {
    trim(s).len() == 0
}

/// Whether the text holds only whitespace.
pub fn is_blank_text(value: &str) -> (b: bool)
    ensures
        b == is_blank(value@),
{
    let chars = chars_of(value);
    let (a, b) = trim_range(&chars, 0, chars.len());
    assert(chars@.subrange(0, chars@.len() as int) =~= chars@);
    a == b
}

/// The category of a graph entity.
#[derive(Clone, Copy, Debug, PartialEq, Eq, Structural)]
pub enum EntityKind {
    Repository,
    Directory,
    File,
    Symbol,
}

/// The lower-case name of an entity category.
pub open spec fn entity_kind_name(kind: EntityKind) -> &'static str {
    match kind {
        EntityKind::Repository => "repository",
        EntityKind::Directory => "directory",
        EntityKind::File => "file",
        EntityKind::Symbol => "symbol",
    }
}

impl EntityKind {
    /// Returns the lower-case name of the category.
    pub fn as_str(self) -> (s: &'static str)
        ensures
            s == entity_kind_name(self),
    {
        match self {
            EntityKind::Repository => "repository",
            EntityKind::Directory => "directory",
            EntityKind::File => "file",
            EntityKind::Symbol => "symbol",
        }
    }
}

/// A typed graph entity identifier for relationship endpoints.
#[derive(Clone, Copy, Debug, PartialEq, Eq, PartialOrd, Ord, Hash)]
pub enum EntityId {
    Repository(RepositoryId),
    Directory(DirectoryId),
    File(FileId),
    Symbol(SymbolId),
}

/// The category of an entity identifier.
pub open spec fn entity_kind(e: EntityId) -> EntityKind {
    match e {
        EntityId::Repository(_) => EntityKind::Repository,
        EntityId::Directory(_) => EntityKind::Directory,
        EntityId::File(_) => EntityKind::File,
        EntityId::Symbol(_) => EntityKind::Symbol,
    }
}

/// The text form of an entity identifier, as its stable component reads.
pub open spec fn entity_text(e: EntityId) -> Seq<char> {
    match e {
        EntityId::Repository(id) => id_text("repo"@, id@),
        EntityId::Directory(id) => id_text("dir"@, id@),
        EntityId::File(id) => id_text("file"@, id@),
        EntityId::Symbol(id) => id_text("symbol"@, id@),
    }
}

impl EntityId {
    /// Returns the entity category for this identifier.
    pub fn kind(self) -> (k: EntityKind)
        ensures
            k == entity_kind(self),
    {
        match self {
            EntityId::Repository(_) => EntityKind::Repository,
            EntityId::Directory(_) => EntityKind::Directory,
            EntityId::File(_) => EntityKind::File,
            EntityId::Symbol(_) => EntityKind::Symbol,
        }
    }

    /// Returns the labelled text form of the identifier.
    pub fn stable_component(self) -> (s: String)
        ensures
            s@ == entity_text(self),
    {
        match self {
            EntityId::Repository(id) => id.to_string(),
            EntityId::Directory(id) => id.to_string(),
            EntityId::File(id) => id.to_string(),
            EntityId::Symbol(id) => id.to_string(),
        }
    }
}

/// The repository root metadata stored in a graph.
#[derive(Clone, Debug, PartialEq, Eq)]
pub struct Repository {
    pub id: RepositoryId,
    pub stable_key: String,
    pub display_name: String,
    pub root_path: PathBuf,
}

impl Repository {
    /// Creates repository metadata with a deterministic identifier.
    pub fn new(stable_key: &str, display_name: &str, root_path: PathBuf) -> (r: Result<
        Self,
        GraphError,
    >)
        ensures
            is_blank(stable_key@) ==> (r matches Err(e) && e@ == (GraphErrorView::EmptyStableKey {
                entity: "repository"@,
            })),
            !is_blank(stable_key@) && is_blank(display_name@) ==> (r matches Err(e) && e@
                == (GraphErrorView::EmptyName { entity: "repository"@ })),
            !is_blank(stable_key@) && !is_blank(display_name@) ==> (r matches Ok(repo) && repo.id@
                == repository_hash(stable_key@) && repo.stable_key@ == stable_key@
                && repo.display_name@ == display_name@ && repo.root_path == root_path),
    {
        check_key_is_not_blank("repository", stable_key)?;
        check_name_is_not_blank("repository", display_name)?;
        Ok(
            Repository {
                id: RepositoryId::new(stable_key),
                stable_key: stable_key.to_owned(),
                display_name: display_name.to_owned(),
                root_path,
            },
        )
    }
}

impl Repository {
    /// A second repository value with the same fields.
    pub fn duplicate(&self) -> (r: Self)
        ensures
            r == *self,
    {
        Repository {
            id: self.id,
            stable_key: self.stable_key.clone(),
            display_name: self.display_name.clone(),
            root_path: self.root_path.clone(),
        }
    }
}

/// A directory node in the repository filesystem layer.
#[derive(Clone, Debug, PartialEq, Eq)]
pub struct Directory {
    pub id: DirectoryId,
    pub repository_id: RepositoryId,
    pub parent_id: Option<DirectoryId>,
    pub relative_path: RelativePath,
}

impl Directory {
    /// Creates a directory node for the given repository-relative path.
    pub fn new(
        repository_id: RepositoryId,
        parent_id: Option<DirectoryId>,
        relative_path: &str,
    ) -> (r: Result<Self, GraphError>)
        ensures
            match (r, relative_path_result(relative_path@)) {
                (Ok(d), Ok(path)) => d.relative_path@ == path && d.repository_id == repository_id
                    && d.parent_id == parent_id && d.id@ == path_entry_hash(
                    "directory"@,
                    repository_id@,
                    path,
                ),
                (Err(e), Err(ev)) => e@ == ev,
                _ => false,
            },
    {
        let relative_path = RelativePath::new(relative_path)?;
        let id = DirectoryId::new(repository_id, &relative_path);
        Ok(Directory { id, repository_id, parent_id, relative_path })
    }
}

impl Directory {
    /// A second directory value with the same fields.
    pub fn duplicate(&self) -> (r: Self)
        ensures
            r == *self,
    {
        Directory {
            id: self.id,
            repository_id: self.repository_id,
            parent_id: self.parent_id,
            relative_path: self.relative_path.duplicate(),
        }
    }
}

/// A file node in the repository filesystem layer.
#[derive(Clone, Debug, PartialEq, Eq)]
pub struct File {
    pub id: FileId,
    pub repository_id: RepositoryId,
    pub parent_id: DirectoryId,
    pub relative_path: RelativePath,
}

impl File {
    /// A second file value with the same fields.
    pub fn duplicate(&self) -> (r: Self)
        ensures
            r == *self,
    {
        File {
            id: self.id,
            repository_id: self.repository_id,
            parent_id: self.parent_id,
            relative_path: self.relative_path.duplicate(),
        }
    }

    /// Creates a file node for the given repository-relative path.
    pub fn new(repository_id: RepositoryId, parent_id: DirectoryId, relative_path: &str) -> (r:
        Result<Self, GraphError>)
        ensures
            match (r, relative_path_result(relative_path@)) {
                (Ok(f), Ok(path)) => f.relative_path@ == path && f.repository_id == repository_id
                    && f.parent_id == parent_id && f.id@ == path_entry_hash(
                    "file"@,
                    repository_id@,
                    path,
                ),
                (Err(e), Err(ev)) => e@ == ev,
                _ => false,
            },
    {
        let relative_path = RelativePath::new(relative_path)?;
        let id = FileId::new(repository_id, &relative_path);
        Ok(File { id, repository_id, parent_id, relative_path })
    }
}

/// The supported symbol categories of the graph model.
#[derive(Clone, Copy, Debug, PartialEq, Eq, Structural)]
pub enum SymbolKind {
    Module,
    Type,
    Function,
    Method,
    Field,
    Constant,
}

/// The owning container for a symbol definition.
#[derive(Clone, Copy, Debug, PartialEq, Eq)]
pub enum SymbolOwner {
    File(FileId),
    Symbol(SymbolId),
}

/// The entity that owns a symbol.
pub open spec fn owner_entity(owner: SymbolOwner) -> EntityId {
    match owner {
        SymbolOwner::File(id) => EntityId::File(id),
        SymbolOwner::Symbol(id) => EntityId::Symbol(id),
    }
}

impl SymbolOwner {
    fn entity_id(self) -> (e: EntityId)
        ensures
            e == owner_entity(self),
    {
        match self {
            SymbolOwner::File(id) => EntityId::File(id),
            SymbolOwner::Symbol(id) => EntityId::Symbol(id),
        }
    }
}

/// A symbol node in the semantic layer of the repository graph.
#[derive(Clone, Debug, PartialEq, Eq)]
pub struct Symbol {
    pub id: SymbolId,
    pub file_id: FileId,
    pub owner: SymbolOwner,
    pub kind: SymbolKind,
    pub display_name: String,
    pub stable_key: String,
    pub span: SourceSpan,
}

impl Symbol {
    /// A second symbol value with the same fields.
    pub fn duplicate(&self) -> (r: Self)
        ensures
            r == *self,
    {
        Symbol {
            id: self.id,
            file_id: self.file_id,
            owner: self.owner,
            kind: self.kind,
            display_name: self.display_name.clone(),
            stable_key: self.stable_key.clone(),
            span: self.span,
        }
    }

    /// The same symbol located at `span` in its file.
    pub fn with_span(self, span: SourceSpan) -> (r: Self)
        ensures
            r.id == self.id && r.file_id == self.file_id && r.owner == self.owner && r.kind
                == self.kind && r.display_name@ == self.display_name@ && r.stable_key@
                == self.stable_key@ && r.span == span,
    {
        Symbol { span, ..self }
    }

    /// Creates a symbol node with a deterministic identifier scoped to its defining file,
    /// with an empty span at the start of the file.
    pub fn new(
        file_id: FileId,
        owner: SymbolOwner,
        kind: SymbolKind,
        display_name: &str,
        stable_key: &str,
    ) -> (r: Result<Self, GraphError>)
        ensures
            is_blank(display_name@) ==> (r matches Err(e) && e@ == (GraphErrorView::EmptyName {
                entity: "symbol"@,
            })),
            !is_blank(display_name@) && is_blank(stable_key@) ==> (r matches Err(e) && e@
                == (GraphErrorView::EmptyStableKey { entity: "symbol"@ })),
            !is_blank(display_name@) && !is_blank(stable_key@) ==> (r matches Ok(s) && s.id@
                == symbol_hash(file_id@, stable_key@) && s.file_id == file_id && s.owner == owner
                && s.kind == kind && s.display_name@ == display_name@ && s.stable_key@
                == stable_key@ && s.span == SourceSpan::start_of_file()),
    {
        check_name_is_not_blank("symbol", display_name)?;
        check_key_is_not_blank("symbol", stable_key)?;
        Ok(
            Symbol {
                id: SymbolId::new(file_id, stable_key),
                file_id,
                owner,
                kind,
                display_name: display_name.to_owned(),
                stable_key: stable_key.to_owned(),
                span: SourceSpan::new(0, 0, SourcePosition::new(0, 0), SourcePosition::new(0, 0)),
            },
        )
    }
}

/// Supported relationship categories in the core graph.
#[derive(Clone, Copy, Debug, PartialEq, Eq, Structural)]
pub enum RelationshipKind {
    Contains,
    Defines,
    Imports,
    Calls,
    References,
}

/// The lower-case name of a relationship category.
pub open spec fn relationship_kind_name(kind: RelationshipKind) -> &'static str {
    match kind {
        RelationshipKind::Contains => "contains",
        RelationshipKind::Defines => "defines",
        RelationshipKind::Imports => "imports",
        RelationshipKind::Calls => "calls",
        RelationshipKind::References => "references",
    }
}

impl RelationshipKind {
    /// Returns the lower-case name of the category.
    pub fn as_str(self) -> (s: &'static str)
        ensures
            s == relationship_kind_name(self),
    {
        match self {
            RelationshipKind::Contains => "contains",
            RelationshipKind::Defines => "defines",
            RelationshipKind::Imports => "imports",
            RelationshipKind::Calls => "calls",
            RelationshipKind::References => "references",
        }
    }
}

/// Deterministic identifier for a relationship edge.
#[derive(Clone, Copy, Debug, PartialEq, Eq, PartialOrd, Ord, Hash)]
pub struct RelationshipId(u64);

impl View for RelationshipId {
    type V = u64;

    closed spec fn view(&self) -> u64 {
        self.0
    }
}

/// Stable hash value of a relationship with the given kind and endpoints.
pub open spec fn relationship_hash(kind: RelationshipKind, source: EntityId, target: EntityId) -> u64 {
    stable_hash_spec(
        utf8_parts(
            seq![
                "relationship"@,
                relationship_kind_name(kind)@,
                entity_text(source),
                entity_text(target),
            ],
        ),
    )
}

impl RelationshipId {
    /// Builds a deterministic identifier from relationship kind and endpoints.
    pub fn new(kind: RelationshipKind, source: EntityId, target: EntityId) -> (id: Self)
        ensures
            id@ == relationship_hash(kind, source, target),
    {
        let source_text = source.stable_component();
        let target_text = target.stable_component();
        let parts = ["relationship", kind.as_str(), source_text.as_str(), target_text.as_str()];
        assert(parts@.map_values(|p: &str| p@) =~= seq![
            "relationship"@,
            relationship_kind_name(kind)@,
            entity_text(source),
            entity_text(target),
        ]);
        RelationshipId(stable_hash(&parts))
    }

    /// Returns the raw hashed value.
    pub fn as_u64(self) -> (v: u64)
        ensures
            v == self@,
    {
        self.0
    }

    /// Returns the text `rel:` followed by the value as sixteen lower-case hex digits.
    pub fn to_string(self) -> (s: String)
        ensures
            s@ == id_text("rel"@, self@),
    {
        id_string("rel", self.0)
    }
}

/// Whether `r` is the edge of the given kind between the given endpoints.
pub open spec fn is_edge(r: Relationship, source: EntityId, kind: RelationshipKind, target: EntityId) -> bool {
    &&& r.source == source
    &&& r.kind == kind
    &&& r.target == target
    &&& r.id@ == relationship_hash(kind, source, target)
}

/// A relationship edge between typed graph entities.
#[derive(Clone, Debug, PartialEq, Eq)]
pub struct Relationship {
    pub id: RelationshipId,
    pub kind: RelationshipKind,
    pub source: EntityId,
    pub target: EntityId,
}

impl Relationship {
    /// Creates a relationship edge with a deterministic identifier.
    pub fn new(source: EntityId, kind: RelationshipKind, target: EntityId) -> (r: Self)
        ensures
            is_edge(r, source, kind, target),
    {
        Relationship { id: RelationshipId::new(kind, source, target), kind, source, target }
    }
}

pub(crate) fn check_key_is_not_blank(entity: &'static str, value: &str) -> (r: Result<(), GraphError>)
    ensures
        is_blank(value@) ==> (r matches Err(e) && e@ == (GraphErrorView::EmptyStableKey {
            entity: entity@,
        })),
        !is_blank(value@) ==> r is Ok,
{
    if is_blank_text(value) {
        return Err(GraphError::EmptyStableKey { entity });
    }
    Ok(())
}

pub(crate) fn check_name_is_not_blank(entity: &'static str, value: &str) -> (r: Result<(), GraphError>)
    ensures
        is_blank(value@) ==> (r matches Err(e) && e@ == (GraphErrorView::EmptyName {
            entity: entity@,
        })),
        !is_blank(value@) ==> r is Ok,
{
    if is_blank_text(value) {
        return Err(GraphError::EmptyName { entity });
    }
    Ok(())
}


/// The abstract content of a repository graph: the repository and every node and edge,
/// each keyed by the raw value of its identifier.
#[verifier::ext_equal]
pub struct GraphView {
    pub repository: Repository,
    pub directories: Map<u64, Directory>,
    pub files: Map<u64, File>,
    pub symbols: Map<u64, Symbol>,
    pub relationships: Map<u64, Relationship>,
}

/// Whether `a` lists the directories of `g` as `RepositoryGraph::directories` promises: as
/// many as there are, each one of them, in strictly increasing identifier order.
pub open spec fn lists_directories(g: GraphView, a: Seq<Directory>) -> bool {
    &&& a.len() == g.directories.dom().len()
    &&& forall|i: int|
        0 <= i < a.len() ==> g.directories.contains_key(#[trigger] a[i].id@) && g.directories[a[i].id@]
            == a[i]
    &&& forall|i: int, j: int| 0 <= i < j < a.len() ==> a[i].id@ < a[j].id@
}

/// Two strictly increasing key lists with the same members are equal.
proof fn lemma_increasing_same_members(a: Seq<u64>, b: Seq<u64>)
    requires
        a.len() == b.len(),
        forall|i: int, j: int| 0 <= i < j < a.len() ==> a[i] < a[j],
        forall|i: int, j: int| 0 <= i < j < b.len() ==> b[i] < b[j],
        forall|i: int| 0 <= i < a.len() ==> b.contains(#[trigger] a[i]),
        forall|i: int| 0 <= i < b.len() ==> a.contains(#[trigger] b[i]),
    ensures
        a == b,
    decreases a.len(),
{
    if a.len() > 0 {
        assert(b.contains(a[0]));
        assert(a.contains(b[0]));
        let ka = choose|k: int| 0 <= k < b.len() && b[k] == a[0];
        let kb = choose|k: int| 0 <= k < a.len() && a[k] == b[0];
        assert(a[0] == b[0]);
        let a1 = a.drop_first();
        let b1 = b.drop_first();
        assert forall|i: int| 0 <= i < a1.len() implies b1.contains(#[trigger] a1[i]) by {
            assert(b.contains(a[i + 1]));
            let k = choose|k: int| 0 <= k < b.len() && b[k] == a[i + 1];
            assert(k != 0);
            assert(b1[k - 1] == a1[i]);
        }
        assert forall|i: int| 0 <= i < b1.len() implies a1.contains(#[trigger] b1[i]) by {
            assert(a.contains(b[i + 1]));
            let k = choose|k: int| 0 <= k < a.len() && a[k] == b[i + 1];
            assert(k != 0);
            assert(a1[k - 1] == b1[i]);
        }
        lemma_increasing_same_members(a1, b1);
        assert(a =~= seq![a[0]] + a1);
        assert(b =~= seq![b[0]] + b1);
    }
}

/// A strictly increasing list of as many keys of a finite set as the set holds, each
/// from the set, holds every key of the set.
proof fn lemma_increasing_listing_covers(a: Seq<u64>, keys: Set<u64>)
    requires
        keys.finite(),
        a.len() == keys.len(),
        forall|i: int| 0 <= i < a.len() ==> keys.contains(#[trigger] a[i]),
        forall|i: int, j: int| 0 <= i < j < a.len() ==> a[i] < a[j],
    ensures
        forall|k: u64| keys.contains(k) ==> a.contains(k),
{
    assert(a.no_duplicates()) by {
        assert forall|i: int, j: int| 0 <= i < a.len() && 0 <= j < a.len() && i != j implies a[i]
            != a[j] by {
            if i < j {
                assert(a[i] < a[j]);
            } else {
                assert(a[j] < a[i]);
            }
        }
    }
    a.unique_seq_to_set();
    assert(a.to_set().subset_of(keys));
    vstd::set_lib::lemma_len_subset(a.to_set(), keys);
    vstd::set_lib::lemma_subset_equality(a.to_set(), keys);
    assert forall|k: u64| keys.contains(k) implies a.contains(k) by {
        assert(a.to_set().contains(k));
    }
}

/// Listing a graph's directories has one answer: any two lists that meet the contract of
/// `RepositoryGraph::directories` are the same list, each directory once, so repeated
/// calls agree.
pub proof fn lemma_directory_listing_unique(g: GraphView, a: Seq<Directory>, b: Seq<Directory>)
    requires
        g.directories.dom().finite(),
        lists_directories(g, a),
        lists_directories(g, b),
    ensures
        a == b,
        forall|i: int, j: int| 0 <= i < a.len() && 0 <= j < a.len() && i != j ==> a[i].id@ != a[j].id@,
{
    let ka = a.map_values(|d: Directory| d.id@);
    let kb = b.map_values(|d: Directory| d.id@);
    let keys = g.directories.dom();
    lemma_increasing_listing_covers(ka, keys);
    lemma_increasing_listing_covers(kb, keys);
    assert forall|i: int| 0 <= i < ka.len() implies kb.contains(#[trigger] ka[i]) by {
        assert(keys.contains(ka[i]));
    }
    assert forall|i: int| 0 <= i < kb.len() implies ka.contains(#[trigger] kb[i]) by {
        assert(keys.contains(kb[i]));
    }
    lemma_increasing_same_members(ka, kb);
    assert forall|i: int| 0 <= i < a.len() implies a[i] == b[i] by {
        assert(ka[i] == kb[i]);
    }
    assert(a =~= b);
    assert forall|i: int, j: int| 0 <= i < a.len() && 0 <= j < a.len() && i != j implies a[i].id@
        != a[j].id@ by {
        if i < j {
            assert(a[i].id@ < a[j].id@);
        } else {
            assert(a[j].id@ < a[i].id@);
        }
    }
}

/// Whether the entity exists in the graph.
pub open spec fn entity_present(g: GraphView, e: EntityId) -> bool {
    match e {
        EntityId::Repository(id) => id@ == g.repository.id@,
        EntityId::Directory(id) => g.directories.contains_key(id@),
        EntityId::File(id) => g.files.contains_key(id@),
        EntityId::Symbol(id) => g.symbols.contains_key(id@),
    }
}

/// Which endpoint categories each relationship kind may connect.
pub open spec fn relationship_allowed(
    kind: RelationshipKind,
    source: EntityKind,
    target: EntityKind,
) -> bool {
    match kind {
        RelationshipKind::Contains => (source == EntityKind::Repository && target
            == EntityKind::Directory) || (source == EntityKind::Directory && target
            == EntityKind::Directory) || (source == EntityKind::Directory && target
            == EntityKind::File),
        RelationshipKind::Defines => (source == EntityKind::File && target == EntityKind::Symbol)
            || (source == EntityKind::Symbol && target == EntityKind::Symbol),
        RelationshipKind::Imports | RelationshipKind::References => (source == EntityKind::File
            || source == EntityKind::Symbol) && (target == EntityKind::File || target
            == EntityKind::Symbol),
        RelationshipKind::Calls => source == EntityKind::Symbol && target == EntityKind::Symbol,
    }
}

/// Which edges the graph accepts between two entities it holds, when the edge is new:
/// `contains` from the repository to a directory or from a directory to a directory or
/// file; `defines` from a file or symbol to a symbol; `imports` and `references` between
/// files and symbols; `calls` only from a symbol to a symbol. Any other edge is refused as
/// an invalid relationship.
pub proof fn lemma_accepted_edges(g: GraphView, r: Relationship)
    requires
        entity_present(g, r.source),
        entity_present(g, r.target),
        !g.relationships.contains_key(r.id@),
    ensures
        relationship_rejection(g, r) is None <==> match r.kind {
            RelationshipKind::Contains => (r.source is Repository && r.target is Directory) || (
            r.source is Directory && r.target is Directory) || (r.source is Directory
                && r.target is File),
            RelationshipKind::Defines => (r.source is File || r.source is Symbol)
                && r.target is Symbol,
            RelationshipKind::Imports | RelationshipKind::References => (r.source is File
                || r.source is Symbol) && (r.target is File || r.target is Symbol),
            RelationshipKind::Calls => r.source is Symbol && r.target is Symbol,
        },
        relationship_rejection(g, r) is Some ==> relationship_rejection(g, r)
            == Some(
            GraphErrorView::InvalidRelationship {
                kind: relationship_kind_name(r.kind)@,
                source: entity_kind_name(entity_kind(r.source))@,
                target: entity_kind_name(entity_kind(r.target))@,
            },
        ),
{
}

/// Whether the kind is one whose edges only the graph itself derives.
pub open spec fn is_structural(kind: RelationshipKind) -> bool {
    kind == RelationshipKind::Contains || kind == RelationshipKind::Defines
}

/// The invariant every graph keeps: nodes are keyed by their own identifiers, belong to
/// the graph's repository and hang off parents that exist, and every edge joins existing
/// entities of the categories its kind allows.
pub open spec fn graph_wf(g: GraphView) -> bool {
    &&& forall|k: u64| #[trigger]
        g.directories.contains_key(k) ==> {
            let d = g.directories[k];
            &&& d.id@ == k
            &&& d.repository_id@ == g.repository.id@
            &&& (d.parent_id matches Some(p) ==> g.directories.contains_key(p@))
        }
    &&& forall|k: u64| #[trigger]
        g.files.contains_key(k) ==> {
            let f = g.files[k];
            &&& f.id@ == k
            &&& f.repository_id@ == g.repository.id@
            &&& g.directories.contains_key(f.parent_id@)
        }
    &&& forall|k: u64| #[trigger]
        g.symbols.contains_key(k) ==> {
            let s = g.symbols[k];
            &&& s.id@ == k
            &&& g.files.contains_key(s.file_id@)
            &&& entity_present(g, owner_entity(s.owner))
        }
    &&& forall|k: u64| #[trigger]
        g.relationships.contains_key(k) ==> {
            let r = g.relationships[k];
            &&& r.id@ == k
            &&& entity_present(g, r.source)
            &&& entity_present(g, r.target)
            &&& relationship_allowed(r.kind, entity_kind(r.source), entity_kind(r.target))
        }
}

/// Why the graph refuses an edge, if it does: a missing endpoint, a pair of endpoint
/// categories the kind does not allow, or an identifier already taken.
pub open spec fn relationship_rejection(g: GraphView, r: Relationship) -> Option<GraphErrorView> {
    if !entity_present(g, r.source) {
        Some(
            GraphErrorView::MissingEntity {
                entity: entity_kind_name(entity_kind(r.source))@,
                id: entity_text(r.source),
            },
        )
    } else if !entity_present(g, r.target) {
        Some(
            GraphErrorView::MissingEntity {
                entity: entity_kind_name(entity_kind(r.target))@,
                id: entity_text(r.target),
            },
        )
    } else if !relationship_allowed(r.kind, entity_kind(r.source), entity_kind(r.target)) {
        Some(
            GraphErrorView::InvalidRelationship {
                kind: relationship_kind_name(r.kind)@,
                source: entity_kind_name(entity_kind(r.source))@,
                target: entity_kind_name(entity_kind(r.target))@,
            },
        )
    } else if g.relationships.contains_key(r.id@) {
        Some(GraphErrorView::DuplicateEntity { entity: "relationship"@, id: id_text("rel"@, r.id@) })
    } else {
        None
    }
}

/// The graph with one more edge.
pub open spec fn with_relationship(g: GraphView, r: Relationship) -> GraphView {
    GraphView { relationships: g.relationships.insert(r.id@, r), ..g }
}

/// The edge of the given kind between the given endpoints, as `Relationship::new` builds it.
pub closed spec fn edge(source: EntityId, kind: RelationshipKind, target: EntityId) -> Relationship {
    Relationship {
        id: RelationshipId(relationship_hash(kind, source, target)),
        kind,
        source,
        target,
    }
}

/// The edge that the graph adds between two entities is the one `Relationship::new` builds
/// for them: `edge` meets `is_edge`, and any relationship that meets `is_edge` is `edge`.
pub broadcast proof fn lemma_edge_is_edge(source: EntityId, kind: RelationshipKind, target: EntityId)
    ensures
        #[trigger] is_edge(edge(source, kind, target), source, kind, target),
{
}

/// A relationship that `Relationship::new` built (one that meets `is_edge`) is the edge the
/// graph adds between the same entities.
pub broadcast proof fn lemma_new_is_edge(
    r: Relationship,
    source: EntityId,
    kind: RelationshipKind,
    target: EntityId,
)
    requires
        #[trigger] is_edge(r, source, kind, target),
    ensures
        r == edge(source, kind, target),
{
}

/// Why the graph refuses a directory, if it does.
pub open spec fn directory_rejection(g: GraphView, d: Directory) -> Option<GraphErrorView> {
    if d.repository_id@ != g.repository.id@ {
        Some(GraphErrorView::RepositoryMismatch { entity: "directory"@ })
    } else {
        match (d.parent_id, parent_text(d.relative_path@)) {
            (None, None) => directory_duplicate(g, d),
            (None, Some(expected)) => Some(
                GraphErrorView::InvalidParent {
                    child: "directory"@,
                    expected: display_text(expected),
                    actual: "<none>"@,
                },
            ),
            (Some(_), None) => Some(
                GraphErrorView::InvalidParent {
                    child: "directory"@,
                    expected: "<none>"@,
                    actual: "directory"@,
                },
            ),
            (Some(parent_id), Some(expected)) => if !g.directories.contains_key(parent_id@) {
                Some(
                    GraphErrorView::MissingEntity {
                        entity: "directory"@,
                        id: id_text("dir"@, parent_id@),
                    },
                )
            } else if g.directories[parent_id@].relative_path@ != expected {
                Some(
                    GraphErrorView::InvalidParent {
                        child: "directory"@,
                        expected: display_text(expected),
                        actual: display_text(g.directories[parent_id@].relative_path@),
                    },
                )
            } else {
                directory_duplicate(g, d)
            },
        }
    }
}

/// The duplicate-directory error, if the identifier is taken.
pub open spec fn directory_duplicate(g: GraphView, d: Directory) -> Option<GraphErrorView> {
    if g.directories.contains_key(d.id@) {
        Some(GraphErrorView::DuplicateEntity { entity: "directory"@, id: id_text("dir"@, d.id@) })
    } else {
        None
    }
}

/// The entity whose `contains` edge leads to a new directory.
pub open spec fn directory_source(g: GraphView, d: Directory) -> EntityId {
    match d.parent_id {
        Some(p) => EntityId::Directory(p),
        None => EntityId::Repository(g.repository.id),
    }
}

/// The graph with one more directory node.
pub open spec fn with_directory(g: GraphView, d: Directory) -> GraphView {
    GraphView { directories: g.directories.insert(d.id@, d), ..g }
}

/// Why the graph refuses a file, if it does.
pub open spec fn file_rejection(g: GraphView, f: File) -> Option<GraphErrorView> {
    if f.repository_id@ != g.repository.id@ {
        Some(GraphErrorView::RepositoryMismatch { entity: "file"@ })
    } else if !g.directories.contains_key(f.parent_id@) {
        Some(GraphErrorView::MissingEntity { entity: "directory"@, id: id_text("dir"@, f.parent_id@) })
    } else {
        match parent_text(f.relative_path@) {
            None => Some(
                GraphErrorView::InvalidParent {
                    child: "file"@,
                    expected: "a parent directory"@,
                    actual: "<none>"@,
                },
            ),
            Some(expected) => if g.directories[f.parent_id@].relative_path@ != expected {
                Some(
                    GraphErrorView::InvalidParent {
                        child: "file"@,
                        expected: display_text(expected),
                        actual: display_text(g.directories[f.parent_id@].relative_path@),
                    },
                )
            } else if g.files.contains_key(f.id@) {
                Some(GraphErrorView::DuplicateEntity { entity: "file"@, id: id_text("file"@, f.id@) })
            } else {
                None
            },
        }
    }
}

/// The graph with one more file node.
pub open spec fn with_file(g: GraphView, f: File) -> GraphView {
    GraphView { files: g.files.insert(f.id@, f), ..g }
}

/// Why the graph refuses a symbol, if it does.
pub open spec fn symbol_rejection(g: GraphView, s: Symbol) -> Option<GraphErrorView> {
    if !g.files.contains_key(s.file_id@) {
        Some(GraphErrorView::MissingEntity { entity: "file"@, id: id_text("file"@, s.file_id@) })
    } else {
        match s.owner {
            SymbolOwner::File(file_id) => if file_id@ != s.file_id@ {
                Some(
                    GraphErrorView::InvalidParent {
                        child: "symbol"@,
                        expected: id_text("file"@, s.file_id@),
                        actual: id_text("file"@, file_id@),
                    },
                )
            } else {
                symbol_duplicate(g, s)
            },
            SymbolOwner::Symbol(parent_id) => if !g.symbols.contains_key(parent_id@) {
                Some(
                    GraphErrorView::MissingEntity {
                        entity: "symbol"@,
                        id: id_text("symbol"@, parent_id@),
                    },
                )
            } else {
                symbol_duplicate(g, s)
            },
        }
    }
}

/// The duplicate-symbol error, if the identifier is taken.
pub open spec fn symbol_duplicate(g: GraphView, s: Symbol) -> Option<GraphErrorView> {
    if g.symbols.contains_key(s.id@) {
        Some(GraphErrorView::DuplicateEntity { entity: "symbol"@, id: id_text("symbol"@, s.id@) })
    } else {
        None
    }
}

/// The graph with one more symbol node.
pub open spec fn with_symbol(g: GraphView, s: Symbol) -> GraphView {
    GraphView { symbols: g.symbols.insert(s.id@, s), ..g }
}

/// The outcome of adding a node whose own checks passed: the derived edge `e` goes in
/// unless the edge checks refuse it, in which case the node stays and the error is returned.
pub open spec fn node_then_edge(
    r: Result<(), GraphError>,
    with_node: GraphView,
    e: Relationship,
    after: GraphView,
) -> bool {
    match relationship_rejection(with_node, e) {
        Some(ev) => (r matches Err(x) && x@ == ev) && after == with_node,
        None => r is Ok && after == with_relationship(with_node, e),
    }
}

/// Integer keys are totally ordered, as the map specifications need.
proof fn lemma_u64_keys_ordered()
    ensures
        vstd::laws_cmp::obeys_cmp::<u64>(),
{
    broadcast use vstd::laws_cmp::group_laws_cmp;

}

proof fn lemma_wf_with_relationship(g: GraphView, r: Relationship)
    requires
        graph_wf(g),
        relationship_rejection(g, r) is None,
    ensures
        graph_wf(with_relationship(g, r)),
{
    let g2 = with_relationship(g, r);
    assert forall|e: EntityId| entity_present(g2, e) == entity_present(g, e) by {}
}

proof fn lemma_wf_with_directory(g: GraphView, d: Directory)
    requires
        graph_wf(g),
        directory_rejection(g, d) is None,
    ensures
        graph_wf(with_directory(g, d)),
{
    let g2 = with_directory(g, d);
    assert forall|e: EntityId| entity_present(g, e) implies entity_present(g2, e) by {}
}

proof fn lemma_wf_with_file(g: GraphView, f: File)
    requires
        graph_wf(g),
        file_rejection(g, f) is None,
    ensures
        graph_wf(with_file(g, f)),
{
    let g2 = with_file(g, f);
    assert forall|e: EntityId| entity_present(g, e) implies entity_present(g2, e) by {}
}

proof fn lemma_wf_with_symbol(g: GraphView, s: Symbol)
    requires
        graph_wf(g),
        symbol_rejection(g, s) is None,
    ensures
        graph_wf(with_symbol(g, s)),
{
    let g2 = with_symbol(g, s);
    assert forall|e: EntityId| entity_present(g, e) implies entity_present(g2, e) by {}
    assert(entity_present(g2, owner_entity(s.owner)));
}

/// `res` lists the values of `m` at `keys`, and `keys` are the map's keys in increasing order.
pub open spec fn listed_by_keys<V>(res: Seq<&V>, keys: Seq<u64>, m: Map<u64, V>) -> bool {
    &&& keys.len() == res.len()
    &&& keys.to_set() == m.dom()
    &&& res.len() == m.dom().len()
    &&& forall|i: int| 0 <= i < res.len() ==> #[trigger] res[i] == &m[keys[i]]
    &&& forall|i: int, j: int| 0 <= i < j < res.len() ==> keys[i] < keys[j]
}

/// The values of an integer-keyed map in increasing key order.
fn values_by_key<V>(m: &BTreeMap<u64, V>) -> (res: Vec<&V>)
    ensures
        exists|keys: Seq<u64>| listed_by_keys(res@, keys, m@),
{
    broadcast use vstd::std_specs::btree::group_btree_axioms;

    proof {
        lemma_u64_keys_ordered();
    }
    let values = m.values();
    let ghost listed = vstd::std_specs::iter::IteratorSpec::remaining(&values);
    let ghost keys = choose|ks: Seq<u64>|
        {
            &&& vstd::std_specs::btree::increasing_seq(ks)
            &&& ks.to_set() == m@.dom()
            &&& ks.no_duplicates()
            &&& listed == ks.map(|i: int, k: u64| &m@[k])
        };
    let mut res: Vec<&V> = Vec::new();
    for v in it: values
        invariant
            res@ == it.seq().take(it.index()),
            it.seq() == listed,
    {
        res.push(v);
    }
    proof {
        assert(res@ == listed);
        assert forall|i: int, j: int| 0 <= i < j < res@.len() implies keys[i] < keys[j] by {
            assert(vstd::std_specs::cmp::OrdSpec::cmp_spec(&keys[i], &keys[j]) is Less);
        }
        assert(listed_by_keys(res@, keys, m@));
    }
    res
}

/// The aggregate repository graph used by indexing and later query code.
#[derive(Clone, Debug)]
pub struct RepositoryGraph {
    repository: Repository,
    directories: BTreeMap<u64, Directory>,
    files: BTreeMap<u64, File>,
    symbols: BTreeMap<u64, Symbol>,
    relationships: BTreeMap<u64, Relationship>,
}

impl View for RepositoryGraph {
    type V = GraphView;

    closed spec fn view(&self) -> GraphView {
        GraphView {
            repository: self.repository,
            directories: self.directories@,
            files: self.files@,
            symbols: self.symbols@,
            relationships: self.relationships@,
        }
    }
}

impl RepositoryGraph {
    /// The graph invariant, see `graph_wf`.
    pub open spec fn wf(&self) -> bool {
        graph_wf(self@)
    }

    /// Creates an empty graph for a single repository.
    pub fn new(repository: Repository) -> (g: Self)
        ensures
            g.wf(),
            g@.repository == repository,
            g@.directories == Map::<u64, Directory>::empty(),
            g@.files == Map::<u64, File>::empty(),
            g@.symbols == Map::<u64, Symbol>::empty(),
            g@.relationships == Map::<u64, Relationship>::empty(),
    {
        RepositoryGraph {
            repository,
            directories: BTreeMap::new(),
            files: BTreeMap::new(),
            symbols: BTreeMap::new(),
            relationships: BTreeMap::new(),
        }
    }

    /// Returns repository metadata for this graph.
    pub fn repository(&self) -> (r: &Repository)
        ensures
            *r == self@.repository,
    {
        &self.repository
    }

    /// Returns a directory node by identifier.
    pub fn directory(&self, id: DirectoryId) -> (r: Option<&Directory>)
        ensures
            match r {
                Some(d) => self@.directories.contains_key(id@) && *d == self@.directories[id@],
                None => !self@.directories.contains_key(id@),
            },
    {
        broadcast use vstd::std_specs::btree::group_btree_axioms, vstd::laws_cmp::group_laws_cmp;

        self.directories.get(&id.as_u64())
    }

    /// Returns a file node by identifier.
    pub fn file(&self, id: FileId) -> (r: Option<&File>)
        ensures
            match r {
                Some(f) => self@.files.contains_key(id@) && *f == self@.files[id@],
                None => !self@.files.contains_key(id@),
            },
    {
        broadcast use vstd::std_specs::btree::group_btree_axioms, vstd::laws_cmp::group_laws_cmp;

        self.files.get(&id.as_u64())
    }

    /// Returns a symbol node by identifier.
    pub fn symbol(&self, id: SymbolId) -> (r: Option<&Symbol>)
        ensures
            match r {
                Some(s) => self@.symbols.contains_key(id@) && *s == self@.symbols[id@],
                None => !self@.symbols.contains_key(id@),
            },
    {
        broadcast use vstd::std_specs::btree::group_btree_axioms, vstd::laws_cmp::group_laws_cmp;

        self.symbols.get(&id.as_u64())
    }

    /// Returns a relationship edge by identifier.
    pub fn relationship(&self, id: RelationshipId) -> (r: Option<&Relationship>)
        ensures
            match r {
                Some(e) => self@.relationships.contains_key(id@) && *e
                    == self@.relationships[id@],
                None => !self@.relationships.contains_key(id@),
            },
    {
        broadcast use vstd::std_specs::btree::group_btree_axioms, vstd::laws_cmp::group_laws_cmp;

        self.relationships.get(&id.as_u64())
    }

    /// Lists directories in increasing identifier order.
    pub fn directories(&self) -> (res: Vec<&Directory>)
        requires
            self.wf(),
        ensures
            res@.len() == self@.directories.dom().len(),
            forall|i: int|
                0 <= i < res@.len() ==> self@.directories.contains_key(#[trigger] res@[i].id@)
                    && self@.directories[res@[i].id@] == *res@[i],
            forall|i: int, j: int| 0 <= i < j < res@.len() ==> res@[i].id@ < res@[j].id@,
            self@.directories.dom().finite(),
            lists_directories(self@, res@.map_values(|d: &Directory| *d)),
    {
        let res = values_by_key(&self.directories);
        proof {
            let keys = choose|keys: Seq<u64>| listed_by_keys(res@, keys, self.directories@);
            vstd::seq_lib::seq_to_set_is_finite(keys);
            let listed = res@.map_values(|d: &Directory| *d);
            assert forall|i: int| 0 <= i < listed.len() implies self@.directories.contains_key(
                #[trigger] listed[i].id@,
            ) && self@.directories[listed[i].id@] == listed[i] by {
                assert(listed[i] == *res@[i]);
                assert(keys.to_set().contains(keys[i]));
            }
            assert forall|i: int| 0 <= i < res@.len() implies self@.directories.contains_key(
                #[trigger] res@[i].id@,
            ) && self@.directories[res@[i].id@] == *res@[i] by {
                assert(keys.to_set().contains(keys[i]));
            }
            assert forall|i: int, j: int| 0 <= i < j < res@.len() implies res@[i].id@
                < res@[j].id@ by {
                assert(keys.to_set().contains(keys[i]));
                assert(keys.to_set().contains(keys[j]));
            }
        }
        res
    }

    /// Lists files in increasing identifier order.
    pub fn files(&self) -> (res: Vec<&File>)
        requires
            self.wf(),
        ensures
            res@.len() == self@.files.dom().len(),
            forall|i: int|
                0 <= i < res@.len() ==> self@.files.contains_key(#[trigger] res@[i].id@)
                    && self@.files[res@[i].id@] == *res@[i],
            forall|i: int, j: int| 0 <= i < j < res@.len() ==> res@[i].id@ < res@[j].id@,
            self@.files.dom().finite(),
    {
        let res = values_by_key(&self.files);
        proof {
            let keys = choose|keys: Seq<u64>| listed_by_keys(res@, keys, self.files@);
            vstd::seq_lib::seq_to_set_is_finite(keys);
            assert forall|i: int| 0 <= i < res@.len() implies self@.files.contains_key(
                #[trigger] res@[i].id@,
            ) && self@.files[res@[i].id@] == *res@[i] by {
                assert(keys.to_set().contains(keys[i]));
            }
            assert forall|i: int, j: int| 0 <= i < j < res@.len() implies res@[i].id@
                < res@[j].id@ by {
                assert(keys.to_set().contains(keys[i]));
                assert(keys.to_set().contains(keys[j]));
            }
        }
        res
    }

    /// Lists symbols in increasing identifier order.
    pub fn symbols(&self) -> (res: Vec<&Symbol>)
        requires
            self.wf(),
        ensures
            res@.len() == self@.symbols.dom().len(),
            forall|i: int|
                0 <= i < res@.len() ==> self@.symbols.contains_key(#[trigger] res@[i].id@)
                    && self@.symbols[res@[i].id@] == *res@[i],
            forall|i: int, j: int| 0 <= i < j < res@.len() ==> res@[i].id@ < res@[j].id@,
            self@.symbols.dom().finite(),
    {
        let res = values_by_key(&self.symbols);
        proof {
            let keys = choose|keys: Seq<u64>| listed_by_keys(res@, keys, self.symbols@);
            vstd::seq_lib::seq_to_set_is_finite(keys);
            assert forall|i: int| 0 <= i < res@.len() implies self@.symbols.contains_key(
                #[trigger] res@[i].id@,
            ) && self@.symbols[res@[i].id@] == *res@[i] by {
                assert(keys.to_set().contains(keys[i]));
            }
            assert forall|i: int, j: int| 0 <= i < j < res@.len() implies res@[i].id@
                < res@[j].id@ by {
                assert(keys.to_set().contains(keys[i]));
                assert(keys.to_set().contains(keys[j]));
            }
        }
        res
    }

    /// Lists relationships in increasing identifier order.
    pub fn relationships(&self) -> (res: Vec<&Relationship>)
        requires
            self.wf(),
        ensures
            res@.len() == self@.relationships.dom().len(),
            forall|i: int|
                0 <= i < res@.len() ==> self@.relationships.contains_key(#[trigger] res@[i].id@)
                    && self@.relationships[res@[i].id@] == *res@[i],
            forall|i: int, j: int| 0 <= i < j < res@.len() ==> res@[i].id@ < res@[j].id@,
            self@.relationships.dom().finite(),
    {
        let res = values_by_key(&self.relationships);
        proof {
            let keys = choose|keys: Seq<u64>| listed_by_keys(res@, keys, self.relationships@);
            vstd::seq_lib::seq_to_set_is_finite(keys);
            assert forall|i: int| 0 <= i < res@.len() implies self@.relationships.contains_key(
                #[trigger] res@[i].id@,
            ) && self@.relationships[res@[i].id@] == *res@[i] by {
                assert(keys.to_set().contains(keys[i]));
            }
            assert forall|i: int, j: int| 0 <= i < j < res@.len() implies res@[i].id@
                < res@[j].id@ by {
                assert(keys.to_set().contains(keys[i]));
                assert(keys.to_set().contains(keys[j]));
            }
        }
        res
    }

    /// Returns whether an entity exists in the graph.
    pub fn contains_entity(&self, entity: EntityId) -> (b: bool)
        ensures
            b == entity_present(self@, entity),
    {
        broadcast use vstd::std_specs::btree::group_btree_axioms, vstd::laws_cmp::group_laws_cmp;

        match entity {
            EntityId::Repository(id) => id.as_u64() == self.repository.id.as_u64(),
            EntityId::Directory(id) => self.directories.contains_key(&id.as_u64()),
            EntityId::File(id) => self.files.contains_key(&id.as_u64()),
            EntityId::Symbol(id) => self.symbols.contains_key(&id.as_u64()),
        }
    }

    /// Inserts a directory node and its structural `contains` relationship.
    pub fn insert_directory(&mut self, directory: Directory) -> (r: Result<(), GraphError>)
        requires
            old(self).wf(),
        ensures
            final(self).wf(),
            match directory_rejection(old(self)@, directory) {
                Some(ev) => (r matches Err(e) && e@ == ev) && final(self)@ == old(self)@,
                None => node_then_edge(
                    r,
                    with_directory(old(self)@, directory),
                    edge(
                        directory_source(old(self)@, directory),
                        RelationshipKind::Contains,
                        EntityId::Directory(directory.id),
                    ),
                    final(self)@,
                ),
            },
    {
        self.ensure_repository(directory.repository_id, "directory")?;
        self.validate_directory_parent(&directory)?;
        let id = directory.id;
        let parent = directory.parent_id;
        let ghost before = self@;
        self.insert_unique_directory(directory)?;
        proof {
            lemma_wf_with_directory(before, directory);
        }
        let source = match parent {
            Some(parent_id) => EntityId::Directory(parent_id),
            None => EntityId::Repository(self.repository.id),
        };
        let edge_value = Relationship::new(source, RelationshipKind::Contains, EntityId::Directory(id));
        assert(edge_value == edge(source, RelationshipKind::Contains, EntityId::Directory(id)));
        self.insert_relationship_internal(edge_value)?;
        Ok(())
    }

    /// Inserts a file node and its structural `contains` relationship.
    pub fn insert_file(&mut self, file: File) -> (r: Result<(), GraphError>)
        requires
            old(self).wf(),
        ensures
            final(self).wf(),
            match file_rejection(old(self)@, file) {
                Some(ev) => (r matches Err(e) && e@ == ev) && final(self)@ == old(self)@,
                None => node_then_edge(
                    r,
                    with_file(old(self)@, file),
                    edge(
                        EntityId::Directory(file.parent_id),
                        RelationshipKind::Contains,
                        EntityId::File(file.id),
                    ),
                    final(self)@,
                ),
            },
    {
        broadcast use vstd::std_specs::btree::group_btree_axioms, vstd::laws_cmp::group_laws_cmp;

        self.ensure_repository(file.repository_id, "file")?;
        self.validate_file_parent(&file)?;
        if self.files.contains_key(&file.id.as_u64()) {
            return Err(GraphError::DuplicateEntity { entity: "file", id: file.id.to_string() });
        }
        let id = file.id;
        let parent = file.parent_id;
        let ghost before = self@;
        self.files.insert(id.as_u64(), file);
        assert(self@ == with_file(before, file));
        proof {
            lemma_wf_with_file(before, file);
        }
        let edge_value = Relationship::new(
            EntityId::Directory(parent),
            RelationshipKind::Contains,
            EntityId::File(id),
        );
        assert(edge_value == edge(
            EntityId::Directory(parent),
            RelationshipKind::Contains,
            EntityId::File(id),
        ));
        self.insert_relationship_internal(edge_value)?;
        Ok(())
    }

    /// Inserts a symbol node and its structural `defines` relationship.
    pub fn insert_symbol(&mut self, symbol: Symbol) -> (r: Result<(), GraphError>)
        requires
            old(self).wf(),
        ensures
            final(self).wf(),
            match symbol_rejection(old(self)@, symbol) {
                Some(ev) => (r matches Err(e) && e@ == ev) && final(self)@ == old(self)@,
                None => node_then_edge(
                    r,
                    with_symbol(old(self)@, symbol),
                    edge(
                        owner_entity(symbol.owner),
                        RelationshipKind::Defines,
                        EntityId::Symbol(symbol.id),
                    ),
                    final(self)@,
                ),
            },
    {
        broadcast use vstd::std_specs::btree::group_btree_axioms, vstd::laws_cmp::group_laws_cmp;

        self.validate_symbol_owner(&symbol)?;
        if self.symbols.contains_key(&symbol.id.as_u64()) {
            return Err(GraphError::DuplicateEntity { entity: "symbol", id: symbol.id.to_string() });
        }
        let id = symbol.id;
        let owner = symbol.owner;
        let ghost before = self@;
        self.symbols.insert(id.as_u64(), symbol);
        assert(self@ == with_symbol(before, symbol));
        proof {
            lemma_wf_with_symbol(before, symbol);
        }
        let edge_value = Relationship::new(
            owner.entity_id(),
            RelationshipKind::Defines,
            EntityId::Symbol(id),
        );
        assert(edge_value == edge(
            owner_entity(owner),
            RelationshipKind::Defines,
            EntityId::Symbol(id),
        ));
        self.insert_relationship_internal(edge_value)?;
        Ok(())
    }

    /// Inserts an explicit relationship edge after validating its endpoints.
    /// Structural `contains` and `defines` edges are derived by the graph and refused here.
    pub fn insert_relationship(&mut self, relationship: Relationship) -> (r: Result<
        (),
        GraphError,
    >)
        requires
            old(self).wf(),
        ensures
            final(self).wf(),
            is_structural(relationship.kind) ==> (r matches Err(e) && e@
                == (GraphErrorView::ManagedRelationship {
                kind: relationship_kind_name(relationship.kind)@,
            })) && final(self)@ == old(self)@,
            !is_structural(relationship.kind) ==> match relationship_rejection(
                old(self)@,
                relationship,
            ) {
                Some(ev) => (r matches Err(e) && e@ == ev) && final(self)@ == old(self)@,
                None => r is Ok && final(self)@ == with_relationship(old(self)@, relationship),
            },
    {
        match relationship.kind {
            RelationshipKind::Contains | RelationshipKind::Defines => {
                return Err(GraphError::ManagedRelationship { kind: relationship.kind.as_str() });
            },
            _ => {},
        }
        self.insert_relationship_internal(relationship)
    }

    fn insert_unique_directory(&mut self, directory: Directory) -> (r: Result<(), GraphError>)
        ensures
            match directory_duplicate(old(self)@, directory) {
                Some(ev) => (r matches Err(e) && e@ == ev) && final(self)@ == old(self)@,
                None => r is Ok && final(self)@ == with_directory(old(self)@, directory),
            },
    {
        broadcast use vstd::std_specs::btree::group_btree_axioms, vstd::laws_cmp::group_laws_cmp;

        if self.directories.contains_key(&directory.id.as_u64()) {
            return Err(
                GraphError::DuplicateEntity { entity: "directory", id: directory.id.to_string() },
            );
        }
        self.directories.insert(directory.id.as_u64(), directory);
        Ok(())
    }

    fn insert_relationship_internal(&mut self, relationship: Relationship) -> (r: Result<
        (),
        GraphError,
    >)
        requires
            old(self).wf(),
        ensures
            final(self).wf(),
            match relationship_rejection(old(self)@, relationship) {
                Some(ev) => (r matches Err(e) && e@ == ev) && final(self)@ == old(self)@,
                None => r is Ok && final(self)@ == with_relationship(old(self)@, relationship),
            },
    {
        broadcast use vstd::std_specs::btree::group_btree_axioms, vstd::laws_cmp::group_laws_cmp;

        self.validate_relationship(&relationship)?;
        if self.relationships.contains_key(&relationship.id.as_u64()) {
            return Err(
                GraphError::DuplicateEntity {
                    entity: "relationship",
                    id: relationship.id.to_string(),
                },
            );
        }
        let ghost before = self@;
        self.relationships.insert(relationship.id.as_u64(), relationship);
        assert(self@ == with_relationship(before, relationship));
        proof {
            lemma_wf_with_relationship(before, relationship);
        }
        Ok(())
    }

    fn ensure_repository(&self, repository_id: RepositoryId, entity: &'static str) -> (r: Result<
        (),
        GraphError,
    >)
        ensures
            repository_id@ != self@.repository.id@ ==> (r matches Err(e) && e@
                == (GraphErrorView::RepositoryMismatch { entity: entity@ })),
            repository_id@ == self@.repository.id@ ==> r is Ok,
    {
        if repository_id.as_u64() != self.repository.id.as_u64() {
            return Err(GraphError::RepositoryMismatch { entity });
        }
        Ok(())
    }

    fn validate_directory_parent(&self, directory: &Directory) -> (r: Result<(), GraphError>)
        requires
            directory.repository_id@ == self@.repository.id@,
        ensures
            r is Ok ==> directory_rejection(self@, *directory) == directory_duplicate(
                self@,
                *directory,
            ),
            r matches Err(e) ==> directory_rejection(self@, *directory) == Some(e@),
    {
        let expected_parent_path = directory.relative_path.parent();
        match (directory.parent_id, expected_parent_path) {
            (None, None) => Ok(()),
            (None, Some(expected)) => Err(
                GraphError::InvalidParent {
                    child: "directory",
                    expected: expected.to_string(),
                    actual: "<none>".to_owned(),
                },
            ),
            (Some(_), None) => Err(
                GraphError::InvalidParent {
                    child: "directory",
                    expected: "<none>".to_owned(),
                    actual: "directory".to_owned(),
                },
            ),
            (Some(parent_id), Some(expected)) => {
                let parent = match self.directory(parent_id) {
                    Some(parent) => parent,
                    None => {
                        return Err(
                            GraphError::MissingEntity {
                                entity: "directory",
                                id: parent_id.to_string(),
                            },
                        );
                    },
                };
                if !parent.relative_path.same_as(&expected) {
                    return Err(
                        GraphError::InvalidParent {
                            child: "directory",
                            expected: expected.to_string(),
                            actual: parent.relative_path.to_string(),
                        },
                    );
                }
                Ok(())
            },
        }
    }

    fn validate_file_parent(&self, file: &File) -> (r: Result<(), GraphError>)
        requires
            file.repository_id@ == self@.repository.id@,
        ensures
            r is Ok ==> file_rejection(self@, *file) == (if self@.files.contains_key(file.id@) {
                Some(
                    GraphErrorView::DuplicateEntity { entity: "file"@, id: id_text("file"@, file.id@) },
                )
            } else {
                None
            }),
            r matches Err(e) ==> file_rejection(self@, *file) == Some(e@),
    {
        let parent = match self.directory(file.parent_id) {
            Some(parent) => parent,
            None => {
                return Err(
                    GraphError::MissingEntity { entity: "directory", id: file.parent_id.to_string() },
                );
            },
        };
        let expected_parent = match file.relative_path.parent() {
            Some(expected) => expected,
            None => {
                return Err(
                    GraphError::InvalidParent {
                        child: "file",
                        expected: "a parent directory".to_owned(),
                        actual: "<none>".to_owned(),
                    },
                );
            },
        };
        if !parent.relative_path.same_as(&expected_parent) {
            return Err(
                GraphError::InvalidParent {
                    child: "file",
                    expected: expected_parent.to_string(),
                    actual: parent.relative_path.to_string(),
                },
            );
        }
        Ok(())
    }

    fn validate_symbol_owner(&self, symbol: &Symbol) -> (r: Result<(), GraphError>)
        ensures
            r is Ok ==> symbol_rejection(self@, *symbol) == symbol_duplicate(self@, *symbol),
            r matches Err(e) ==> symbol_rejection(self@, *symbol) == Some(e@),
    {
        if self.file(symbol.file_id).is_none() {
            return Err(GraphError::MissingEntity { entity: "file", id: symbol.file_id.to_string() });
        }
        match symbol.owner {
            SymbolOwner::File(file_id) => {
                if file_id.as_u64() != symbol.file_id.as_u64() {
                    return Err(
                        GraphError::InvalidParent {
                            child: "symbol",
                            expected: symbol.file_id.to_string(),
                            actual: file_id.to_string(),
                        },
                    );
                }
            },
            SymbolOwner::Symbol(parent_symbol_id) => {
                if self.symbol(parent_symbol_id).is_none() {
                    return Err(
                        GraphError::MissingEntity {
                            entity: "symbol",
                            id: parent_symbol_id.to_string(),
                        },
                    );
                }
            },
        }
        Ok(())
    }

    fn validate_relationship(&self, relationship: &Relationship) -> (r: Result<(), GraphError>)
        ensures
            r is Ok <==> relationship_rejection(self@, *relationship) == (
            if self@.relationships.contains_key(relationship.id@) {
                Some(
                    GraphErrorView::DuplicateEntity {
                        entity: "relationship"@,
                        id: id_text("rel"@, relationship.id@),
                    },
                )
            } else {
                None
            }),
            r matches Err(e) ==> relationship_rejection(self@, *relationship) == Some(e@),
    {
        if !self.contains_entity(relationship.source) {
            return Err(
                GraphError::MissingEntity {
                    entity: relationship.source.kind().as_str(),
                    id: relationship.source.stable_component(),
                },
            );
        }
        if !self.contains_entity(relationship.target) {
            return Err(
                GraphError::MissingEntity {
                    entity: relationship.target.kind().as_str(),
                    id: relationship.target.stable_component(),
                },
            );
        }
        let source_kind = relationship.source.kind();
        let target_kind = relationship.target.kind();
        let valid = match relationship.kind {
            RelationshipKind::Contains => match (source_kind, target_kind) {
                (EntityKind::Repository, EntityKind::Directory) => true,
                (EntityKind::Directory, EntityKind::Directory) => true,
                (EntityKind::Directory, EntityKind::File) => true,
                _ => false,
            },
            RelationshipKind::Defines => match (source_kind, target_kind) {
                (EntityKind::File, EntityKind::Symbol) => true,
                (EntityKind::Symbol, EntityKind::Symbol) => true,
                _ => false,
            },
            RelationshipKind::Imports | RelationshipKind::References => match (
                source_kind,
                target_kind,
            ) {
                (EntityKind::File, EntityKind::File) => true,
                (EntityKind::File, EntityKind::Symbol) => true,
                (EntityKind::Symbol, EntityKind::File) => true,
                (EntityKind::Symbol, EntityKind::Symbol) => true,
                _ => false,
            },
            RelationshipKind::Calls => match (source_kind, target_kind) {
                (EntityKind::Symbol, EntityKind::Symbol) => true,
                _ => false,
            },
        };
        if !valid {
            return Err(
                GraphError::InvalidRelationship {
                    kind: relationship.kind.as_str(),
                    source: source_kind.as_str(),
                    target: target_kind.as_str(),
                },
            );
        }
        Ok(())
    }
}

} // verus!
