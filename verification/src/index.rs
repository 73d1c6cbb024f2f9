//! Populating a repository graph from a scan and the symbols extracted from its files.

use vstd::prelude::*;
use vstd::string::*;

use crate::error::{GraphError, GraphErrorView};
use crate::extract::ExtractedSymbol;
use crate::graph::{
    directory_rejection, directory_source, edge, file_rejection, relationship_rejection,
    symbol_rejection, with_directory, with_file, with_relationship, with_symbol, owner_entity,
    Directory, EntityId, File, GraphView, Relationship, RelationshipKind, Repository,
    RepositoryGraph, Symbol,
};
use crate::ids::{id_text, symbol_hash, DirectoryId, FileId, SymbolId};
use crate::parser::{
    accepted_positions, dispatched_symbols, extract_repository_symbols, parse_error_path,
    parse_repository_scan, parsed_in_scan_order, sources_read, LanguageRegistry, ParseError,
    ParsedFile,
};
use crate::path::RelativePath;
use crate::scan::{RepositoryScan, ScanError};

verus! {

/// The end-to-end indexing result for a repository root.
#[derive(Debug)]
pub struct RepositoryIndex {
    pub scan: RepositoryScan,
    pub parsed_files: Vec<ParsedFile>,
    pub symbols: Vec<ExtractedSymbol>,
    pub graph: RepositoryGraph,
}

/// Errors returned by the indexing pipeline.
#[derive(Debug)]
pub enum IndexError {
    Scan { source: ScanError },
    Parse { source: ParseError },
    InsertDirectory { directory_id: DirectoryId, source: GraphError },
    InsertFile { file_id: FileId, source: GraphError },
    InsertSymbol { symbol_id: SymbolId, source: GraphError },
}

/// Two repository values with the same fields.
pub open spec fn same_repository(a: Repository, b: Repository) -> bool {
    a.id == b.id && a.stable_key@ == b.stable_key@ && a.display_name@ == b.display_name@
        && a.root_path == b.root_path
}

/// Two directory values with the same fields.
pub open spec fn same_directory(a: Directory, b: Directory) -> bool {
    a.id == b.id && a.repository_id == b.repository_id && a.parent_id == b.parent_id
        && a.relative_path@ == b.relative_path@
}

/// Two file values with the same fields.
pub open spec fn same_file(a: File, b: File) -> bool {
    a.id == b.id && a.repository_id == b.repository_id && a.parent_id == b.parent_id
        && a.relative_path@ == b.relative_path@
}

/// The graph identifier of an extracted symbol: from its file and stable key.
pub open spec fn extracted_key(e: ExtractedSymbol) -> u64 {
    symbol_hash(e.file_id@, e.stable_key@)
}

/// The graph symbol made from an extracted symbol.
pub open spec fn symbol_for(s: Symbol, e: ExtractedSymbol) -> bool {
    &&& s.id@ == extracted_key(e)
    &&& s.file_id == e.file_id
    &&& s.owner == e.owner
    &&& s.kind == e.kind
    &&& s.display_name@ == e.display_name@
    &&& s.stable_key@ == e.stable_key@
    &&& s.span == e.span
}

/// The graph holds the scan's repository and exactly its directories.
pub open spec fn holds_directories(g: crate::graph::GraphView, scan: RepositoryScan, n: int) -> bool {
    &&& same_repository(g.repository, scan.repository)
    &&& forall|i: int|
        0 <= i < n ==> g.directories.contains_key((#[trigger] scan.directories@[i]).id@)
            && same_directory(g.directories[scan.directories@[i].id@], scan.directories@[i])
    &&& forall|k: u64|
        #[trigger] g.directories.contains_key(k) ==> exists|i: int|
            0 <= i < n && (#[trigger] scan.directories@[i]).id@ == k
}

/// The graph holds exactly the scan's first `n` files.
pub open spec fn holds_files(g: crate::graph::GraphView, scan: RepositoryScan, n: int) -> bool {
    &&& forall|i: int|
        0 <= i < n ==> g.files.contains_key((#[trigger] scan.files@[i]).id@) && same_file(
            g.files[scan.files@[i].id@],
            scan.files@[i],
        )
    &&& forall|k: u64|
        #[trigger] g.files.contains_key(k) ==> exists|i: int|
            0 <= i < n && (#[trigger] scan.files@[i]).id@ == k
}

/// The graph holds, as symbols, exactly the extracted symbols.
pub open spec fn holds_symbols(g: crate::graph::GraphView, symbols: Seq<ExtractedSymbol>) -> bool {
    &&& forall|i: int|
        0 <= i < symbols.len() ==> g.symbols.contains_key(extracted_key(#[trigger] symbols[i]))
            && symbol_for(g.symbols[extracted_key(symbols[i])], symbols[i])
    &&& forall|k: u64|
        #[trigger] g.symbols.contains_key(k) ==> exists|i: int|
            0 <= i < symbols.len() && extracted_key(#[trigger] symbols[i]) == k
}

/// The graph symbol of an extracted symbol; refused when its name or key is blank.
pub fn symbol_from_extracted(extracted: &ExtractedSymbol) -> (r: Result<Symbol, GraphError>)
    ensures
        crate::graph::is_blank(extracted.display_name@) ==> (r matches Err(e) && e@
            == (GraphErrorView::EmptyName { entity: "symbol"@ })),
        !crate::graph::is_blank(extracted.display_name@) && crate::graph::is_blank(
            extracted.stable_key@,
        ) ==> (r matches Err(e) && e@ == (GraphErrorView::EmptyStableKey { entity: "symbol"@ })),
        !crate::graph::is_blank(extracted.display_name@) && !crate::graph::is_blank(
            extracted.stable_key@,
        ) ==> (r matches Ok(s) && symbol_for(s, *extracted)),
{
    match Symbol::new(
        extracted.file_id,
        extracted.owner,
        extracted.kind,
        extracted.display_name.as_str(),
        extracted.stable_key.as_str(),
    ) {
        Ok(symbol) => Ok(symbol.with_span(extracted.span)),
        Err(e) => Err(e),
    }
}


/// Adding an edge as the graph does: the graph with the edge, or the error it refuses it
/// with.
pub open spec fn edge_step(g: GraphView, e: Relationship) -> Result<GraphView, GraphErrorView> {
    match relationship_rejection(g, e) {
        Some(ev) => Err(ev),
        None => Ok(with_relationship(g, e)),
    }
}

/// Adding a directory as `RepositoryGraph::insert_directory` does, with its `contains`
/// edge.
pub open spec fn directory_step(g: GraphView, d: Directory) -> Result<GraphView, GraphErrorView> {
    match directory_rejection(g, d) {
        Some(ev) => Err(ev),
        None => edge_step(
            with_directory(g, d),
            edge(directory_source(g, d), RelationshipKind::Contains, EntityId::Directory(d.id)),
        ),
    }
}

/// Adding a file as `RepositoryGraph::insert_file` does, with its `contains` edge.
pub open spec fn file_step(g: GraphView, f: File) -> Result<GraphView, GraphErrorView> {
    match file_rejection(g, f) {
        Some(ev) => Err(ev),
        None => edge_step(
            with_file(g, f),
            edge(
                EntityId::Directory(f.parent_id),
                RelationshipKind::Contains,
                EntityId::File(f.id),
            ),
        ),
    }
}

/// Adding the directories in order: the graph with all of them, or the position of the
/// first one refused and its error.
pub open spec fn directories_step(g: GraphView, ds: Seq<Directory>) -> Result<
    GraphView,
    (int, GraphErrorView),
>
    decreases ds.len(),
{
    if ds.len() == 0 {
        Ok(g)
    } else {
        match directories_step(g, ds.drop_last()) {
            Err(e) => Err(e),
            Ok(g1) => match directory_step(g1, ds.last()) {
                Ok(g2) => Ok(g2),
                Err(ev) => Err((ds.len() - 1, ev)),
            },
        }
    }
}

/// Adding the files in order: the graph with all of them, or the position of the first
/// one refused and its error.
pub open spec fn files_step(g: GraphView, fs: Seq<File>) -> Result<GraphView, (int, GraphErrorView)>
    decreases fs.len(),
{
    if fs.len() == 0 {
        Ok(g)
    } else {
        match files_step(g, fs.drop_last()) {
            Err(e) => Err(e),
            Ok(g1) => match file_step(g1, fs.last()) {
                Ok(g2) => Ok(g2),
                Err(ev) => Err((fs.len() - 1, ev)),
            },
        }
    }
}

/// Once a prefix of the directories is refused, so is the whole list, at the same place.
proof fn lemma_directories_step_stops(g: GraphView, ds: Seq<Directory>, n: int)
    requires
        0 <= n <= ds.len(),
        directories_step(g, ds.take(n)) is Err,
    ensures
        directories_step(g, ds) == directories_step(g, ds.take(n)),
    decreases ds.len() - n,
{
    if n == ds.len() {
        assert(ds.take(n) =~= ds);
    } else {
        assert(ds.drop_last().take(n) =~= ds.take(n));
        lemma_directories_step_stops(g, ds.drop_last(), n);
    }
}

/// Once a prefix of the files is refused, so is the whole list, at the same place.
proof fn lemma_files_step_stops(g: GraphView, fs: Seq<File>, n: int)
    requires
        0 <= n <= fs.len(),
        files_step(g, fs.take(n)) is Err,
    ensures
        files_step(g, fs) == files_step(g, fs.take(n)),
    decreases fs.len() - n,
{
    if n == fs.len() {
        assert(fs.take(n) =~= fs);
    } else {
        assert(fs.drop_last().take(n) =~= fs.take(n));
        lemma_files_step_stops(g, fs.drop_last(), n);
    }
}

/// Why no graph symbol can be made from an extracted one, if none can: a blank name, then
/// a blank stable key.
pub open spec fn conversion_error(e: ExtractedSymbol) -> Option<GraphErrorView> {
    if crate::graph::is_blank(e.display_name@) {
        Some(GraphErrorView::EmptyName { entity: "symbol"@ })
    } else if crate::graph::is_blank(e.stable_key@) {
        Some(GraphErrorView::EmptyStableKey { entity: "symbol"@ })
    } else {
        None
    }
}

/// The position and error of the first extracted symbol no graph symbol can be made from.
pub open spec fn first_unconvertible(es: Seq<ExtractedSymbol>) -> Option<(int, GraphErrorView)>
    decreases es.len(),
{
    if es.len() == 0 {
        None
    } else {
        match first_unconvertible(es.drop_last()) {
            Some(x) => Some(x),
            None => match conversion_error(es.last()) {
                Some(ev) => Some((es.len() - 1, ev)),
                None => None,
            },
        }
    }
}

/// Whether a graph error reports a missing symbol.
pub open spec fn missing_symbol_error(e: GraphErrorView) -> bool {
    e matches GraphErrorView::MissingEntity { entity, .. } && entity == "symbol"@
}

/// Trying a symbol as `RepositoryGraph::insert_symbol` does: the graph afterwards, and the
/// error if the symbol or its `defines` edge was refused.
pub open spec fn symbol_attempt(g: GraphView, s: Symbol) -> (GraphView, Option<GraphErrorView>) {
    match symbol_rejection(g, s) {
        Some(ev) => (g, Some(ev)),
        None => {
            let g1 = with_symbol(g, s);
            let e = edge(owner_entity(s.owner), RelationshipKind::Defines, EntityId::Symbol(s.id));
            match relationship_rejection(g1, e) {
                Some(ev) => (g1, Some(ev)),
                None => (with_relationship(g1, e), None),
            }
        },
    }
}

/// One pass over the pending symbols in order: each goes in if the graph takes it and is
/// deferred if its owner symbol is missing. The graph afterwards, the deferred symbols and
/// whether any went in; or the identifier and error of the first symbol refused for
/// another reason.
#[verifier::opaque]
pub open spec fn symbol_pass(g: GraphView, pending: Seq<Symbol>) -> Result<
    (GraphView, Seq<Symbol>, bool),
    (u64, GraphErrorView),
>
    decreases pending.len(),
{
    if pending.len() == 0 {
        Ok((g, Seq::empty(), false))
    } else {
        match symbol_pass(g, pending.drop_last()) {
            Err(e) => Err(e),
            Ok((g1, deferred, any)) => {
                let s = pending.last();
                let (g2, refused) = symbol_attempt(g1, s);
                match refused {
                    None => Ok((g2, deferred, true)),
                    Some(ev) => if missing_symbol_error(ev) {
                        Ok((g2, deferred.push(s), any))
                    } else {
                        Err((s.id@, ev))
                    },
                }
            },
        }
    }
}

/// Passes over the pending symbols until none is left: the graph with all of them, or the
/// identifier and error of the symbol that stopped it. A pass that inserts nothing stops
/// with a missing-symbol error for the first symbol it deferred.
#[verifier::opaque]
pub open spec fn symbol_passes(g: GraphView, pending: Seq<Symbol>) -> Result<
    GraphView,
    (u64, GraphErrorView),
>
    decreases pending.len(),
{
    if pending.len() == 0 {
        Ok(g)
    } else {
        match symbol_pass(g, pending) {
            Err(e) => Err(e),
            Ok((g1, deferred, any)) => if any && deferred.len() < pending.len() {
                symbol_passes(g1, deferred)
            } else if deferred.len() > 0 {
                Err(
                    (
                        deferred[0].id@,
                        GraphErrorView::MissingEntity {
                            entity: "symbol"@,
                            id: id_text("symbol"@, deferred[0].id@),
                        },
                    ),
                )
            } else {
                Ok(g1)
            },
        }
    }
}

/// Once a prefix of a pass is refused, so is the whole pass, with the same error.
proof fn lemma_symbol_pass_stops(g: GraphView, pending: Seq<Symbol>, n: int)
    requires
        0 <= n <= pending.len(),
        symbol_pass(g, pending.take(n)) is Err,
    ensures
        symbol_pass(g, pending) == symbol_pass(g, pending.take(n)),
    decreases pending.len() - n,
{
    reveal(symbol_pass);
    if n == pending.len() {
        assert(pending.take(n) =~= pending);
    } else {
        assert(pending.drop_last().take(n) =~= pending.take(n));
        lemma_symbol_pass_stops(g, pending.drop_last(), n);
    }
}

/// Once a prefix of the extracted symbols holds one that cannot be converted, the first
/// such symbol of the whole list is the same one.
proof fn lemma_first_unconvertible_stops(es: Seq<ExtractedSymbol>, n: int)
    requires
        0 <= n <= es.len(),
        first_unconvertible(es.take(n)) is Some,
    ensures
        first_unconvertible(es) == first_unconvertible(es.take(n)),
    decreases es.len() - n,
{
    if n == es.len() {
        assert(es.take(n) =~= es);
    } else {
        assert(es.drop_last().take(n) =~= es.take(n));
        lemma_first_unconvertible_stops(es.drop_last(), n);
    }
}

/// Inserts the scan's directories in order.
fn insert_scan_directories(graph: &mut RepositoryGraph, scan: &RepositoryScan) -> (r: Result<
    (),
    IndexError,
>)
    requires
        old(graph).wf(),
        same_repository(old(graph)@.repository, scan.repository),
        old(graph)@.directories.dom().is_empty(),
        old(graph)@.files.dom().is_empty(),
        old(graph)@.symbols.dom().is_empty(),
    ensures
        final(graph).wf(),
        match r {
            Ok(()) => holds_directories(final(graph)@, *scan, scan.directories@.len() as int)
                && final(graph)@.files.dom().is_empty() && final(graph)@.symbols.dom().is_empty(),
            Err(IndexError::InsertDirectory { directory_id, .. }) => exists|i: int|
                0 <= i < scan.directories@.len() && scan.directories@[i].id == directory_id,
            Err(_) => false,
        },
        match (r, directories_step(old(graph)@, scan.directories@)) {
            (Ok(()), Ok(g)) => final(graph)@ == g,
            (Err(IndexError::InsertDirectory { directory_id, source }), Err((i, ev))) => directory_id
                == scan.directories@[i].id && source@ == ev,
            _ => false,
        },
{
    let ghost g0 = graph@;
    let mut i: usize = 0;
    assert(scan.directories@.take(0) =~= Seq::<Directory>::empty());
    while i < scan.directories.len()
        invariant
            i <= scan.directories@.len(),
            g0 == old(graph)@,
            directories_step(g0, scan.directories@.take(i as int)) == Ok::<
                GraphView,
                (int, GraphErrorView),
            >(graph@),
            graph.wf(),
            holds_directories(graph@, *scan, i as int),
            graph@.files.dom().is_empty(),
            graph@.symbols.dom().is_empty(),
        decreases scan.directories@.len() - i,
    {
        let directory = &scan.directories[i];
        let ghost before = graph@;
        assert(scan.directories@.take(i + 1).drop_last() =~= scan.directories@.take(i as int));
        match graph.insert_directory(directory.duplicate()) {
            Ok(()) => {},
            Err(source) => {
                proof {
                    lemma_directories_step_stops(g0, scan.directories@, i + 1);
                }
                return Err(IndexError::InsertDirectory { directory_id: directory.id, source });
            },
        }
        assert forall|j: int|
            0 <= j < i + 1 implies graph@.directories.contains_key(
            (#[trigger] scan.directories@[j]).id@,
        ) && same_directory(graph@.directories[scan.directories@[j].id@], scan.directories@[j]) by {
            if j < i && scan.directories@[j].id@ == directory.id@ {
                assert(before.directories.contains_key(directory.id@));
            }
        }
        assert forall|k: u64| #[trigger] graph@.directories.contains_key(k) implies exists|j: int|
            0 <= j < i + 1 && (#[trigger] scan.directories@[j]).id@ == k by {
            if k != directory.id@ {
                assert(before.directories.contains_key(k));
            } else {
                assert(scan.directories@[i as int].id@ == k);
            }
        }
        i += 1;
    }
    assert(scan.directories@.take(i as int) =~= scan.directories@);
    Ok(())
}


/// Inserts the scan's files in order.
fn insert_scan_files(graph: &mut RepositoryGraph, scan: &RepositoryScan) -> (r: Result<
    (),
    IndexError,
>)
    requires
        old(graph).wf(),
        holds_directories(old(graph)@, *scan, scan.directories@.len() as int),
        old(graph)@.files.dom().is_empty(),
        old(graph)@.symbols.dom().is_empty(),
    ensures
        final(graph).wf(),
        match r {
            Ok(()) => holds_directories(final(graph)@, *scan, scan.directories@.len() as int)
                && holds_files(final(graph)@, *scan, scan.files@.len() as int)
                && final(graph)@.symbols.dom().is_empty(),
            Err(IndexError::InsertFile { file_id, .. }) => exists|i: int|
                0 <= i < scan.files@.len() && scan.files@[i].id == file_id,
            Err(_) => false,
        },
        match (r, files_step(old(graph)@, scan.files@)) {
            (Ok(()), Ok(g)) => final(graph)@ == g,
            (Err(IndexError::InsertFile { file_id, source }), Err((i, ev))) => file_id
                == scan.files@[i].id && source@ == ev,
            _ => false,
        },
{
    let ghost g0 = graph@;
    let mut i: usize = 0;
    assert(scan.files@.take(0) =~= Seq::<File>::empty());
    while i < scan.files.len()
        invariant
            i <= scan.files@.len(),
            g0 == old(graph)@,
            files_step(g0, scan.files@.take(i as int)) == Ok::<GraphView, (int, GraphErrorView)>(
                graph@,
            ),
            graph.wf(),
            holds_directories(graph@, *scan, scan.directories@.len() as int),
            holds_files(graph@, *scan, i as int),
            graph@.symbols.dom().is_empty(),
        decreases scan.files@.len() - i,
    {
        let file = &scan.files[i];
        let ghost before = graph@;
        assert(scan.files@.take(i + 1).drop_last() =~= scan.files@.take(i as int));
        match graph.insert_file(file.duplicate()) {
            Ok(()) => {},
            Err(source) => {
                proof {
                    lemma_files_step_stops(g0, scan.files@, i + 1);
                }
                return Err(IndexError::InsertFile { file_id: file.id, source });
            },
        }
        assert(graph@.directories == before.directories);
        assert forall|j: int|
            0 <= j < i + 1 implies graph@.files.contains_key((#[trigger] scan.files@[j]).id@)
            && same_file(graph@.files[scan.files@[j].id@], scan.files@[j]) by {
            if j < i && scan.files@[j].id@ == file.id@ {
                assert(before.files.contains_key(file.id@));
            }
        }
        assert forall|k: u64| #[trigger] graph@.files.contains_key(k) implies exists|j: int|
            0 <= j < i + 1 && (#[trigger] scan.files@[j]).id@ == k by {
            if k != file.id@ {
                assert(before.files.contains_key(k));
            } else {
                assert(scan.files@[i as int].id@ == k);
            }
        }
        i += 1;
    }
    assert(scan.files@.take(i as int) =~= scan.files@);
    Ok(())
}


/// Whether an extracted symbol is in the graph as the symbol made from it.
pub open spec fn symbol_in_graph(g: crate::graph::GraphView, e: ExtractedSymbol) -> bool {
    g.symbols.contains_key(extracted_key(e)) && symbol_for(g.symbols[extracted_key(e)], e)
}

/// Every graph symbol is made from one of the extracted symbols.
pub open spec fn symbols_from(g: crate::graph::GraphView, symbols: Seq<ExtractedSymbol>) -> bool {
    forall|k: u64|
        #[trigger] g.symbols.contains_key(k) ==> exists|i: int|
            0 <= i < symbols.len() && extracted_key(#[trigger] symbols[i]) == k
}

/// The graph symbols made from the extracted ones, or the first refusal.
fn convert_symbols(symbols: &Vec<ExtractedSymbol>) -> (r: Result<Vec<Symbol>, IndexError>)
    ensures
        match r {
            Ok(v) => v@.len() == symbols@.len() && forall|i: int|
                0 <= i < v@.len() ==> symbol_for(#[trigger] v@[i], symbols@[i]),
            Err(IndexError::InsertSymbol { symbol_id, .. }) => exists|i: int|
                0 <= i < symbols@.len() && symbols@[i].id == symbol_id,
            Err(_) => false,
        },
        match (r, first_unconvertible(symbols@)) {
            (Ok(_), None) => true,
            (Err(IndexError::InsertSymbol { symbol_id, source }), Some((i, ev))) => symbol_id
                == symbols@[i].id && source@ == ev,
            _ => false,
        },
{
    let mut pending: Vec<Symbol> = Vec::new();
    let mut i: usize = 0;
    assert(symbols@.take(0) =~= Seq::<ExtractedSymbol>::empty());
    while i < symbols.len()
        invariant
            i <= symbols@.len(),
            first_unconvertible(symbols@.take(i as int)) is None,
            pending@.len() == i,
            forall|j: int| 0 <= j < i ==> symbol_for(#[trigger] pending@[j], symbols@[j]),
        decreases symbols@.len() - i,
    {
        let extracted = &symbols[i];
        assert(symbols@.take(i + 1).drop_last() =~= symbols@.take(i as int));
        match symbol_from_extracted(extracted) {
            Ok(symbol) => {
                pending.push(symbol);
            },
            Err(source) => {
                proof {
                    lemma_first_unconvertible_stops(symbols@, i + 1);
                }
                return Err(IndexError::InsertSymbol { symbol_id: extracted.id, source });
            },
        }
        i += 1;
    }
    assert(symbols@.take(i as int) =~= symbols@);
    Ok(pending)
}

/// Whether a graph error reports a missing symbol.
fn is_missing_symbol(error: &GraphError) -> (b: bool)
    ensures
        b == missing_symbol_error(error@),
{
    proof {
        reveal_strlit("symbol");
    }
    match error {
        GraphError::MissingEntity { entity, .. } => crate::text::chars_equal(
            &crate::text::chars_of(entity),
            &crate::text::chars_of("symbol"),
        ),
        _ => false,
    }
}

/// Inserts a copy of one symbol: the graph only gains symbols, keeps every symbol it had,
/// and holds the copy when the insertion succeeds.
fn try_insert_symbol(graph: &mut RepositoryGraph, symbol: &Symbol) -> (r: Result<(), GraphError>)
    requires
        old(graph).wf(),
    ensures
        final(graph).wf(),
        final(graph)@.repository == old(graph)@.repository,
        final(graph)@.directories == old(graph)@.directories,
        final(graph)@.files == old(graph)@.files,
        forall|k: u64|
            #[trigger] final(graph)@.symbols.contains_key(k) ==> old(graph)@.symbols.contains_key(k)
                || k == symbol.id@,
        forall|k: u64|
            #[trigger] old(graph)@.symbols.contains_key(k) ==> final(graph)@.symbols.contains_key(k)
                && final(graph)@.symbols[k] == old(graph)@.symbols[k],
        r is Ok ==> final(graph)@.symbols.contains_key(symbol.id@) && {
            let s = final(graph)@.symbols[symbol.id@];
            s.id == symbol.id && s.file_id == symbol.file_id && s.owner == symbol.owner && s.kind
                == symbol.kind && s.display_name@ == symbol.display_name@ && s.stable_key@
                == symbol.stable_key@ && s.span == symbol.span
        },
        final(graph)@ == symbol_attempt(old(graph)@, *symbol).0,
        match (r, symbol_attempt(old(graph)@, *symbol).1) {
            (Ok(()), None) => true,
            (Err(e), Some(ev)) => e@ == ev,
            _ => false,
        },
{
    graph.insert_symbol(symbol.duplicate())
}

/// Every extracted symbol is in the graph, or is made into one of the pending symbols
/// whose positions `origin` lists from position `from` on.
pub open spec fn placed_or_pending(
    g: GraphView,
    symbols: Seq<ExtractedSymbol>,
    origin: Seq<int>,
    from: int,
) -> bool {
    forall|i: int|
        0 <= i < symbols.len() ==> symbol_in_graph(g, #[trigger] symbols[i]) || exists|t: int|
            from <= t < origin.len() && origin[t] == i
}

/// Each pending symbol is made from the extracted symbol whose position `origin` lists.
pub open spec fn pending_from(pending: Seq<Symbol>, symbols: Seq<ExtractedSymbol>, origin: Seq<int>) -> bool {
    &&& origin.len() == pending.len()
    &&& forall|t: int|
        0 <= t < pending.len() ==> 0 <= #[trigger] origin[t] < symbols.len() && symbol_for(
            pending[t],
            symbols[origin[t]],
        )
}

/// One pass over the pending symbols: each goes in if the graph takes it and is deferred
/// if its owner symbol is missing; any other refusal ends the pass with an error.
fn insert_pass(
    graph: &mut RepositoryGraph,
    pending: &Vec<Symbol>,
    Ghost(symbols): Ghost<Seq<ExtractedSymbol>>,
    Ghost(origin): Ghost<Seq<int>>,
) -> (r: Result<(Vec<Symbol>, bool, Ghost<Seq<int>>), IndexError>)
    requires
        old(graph).wf(),
        pending_from(pending@, symbols, origin),
        placed_or_pending(old(graph)@, symbols, origin, 0),
        symbols_from(old(graph)@, symbols),
    ensures
        final(graph).wf(),
        final(graph)@.repository == old(graph)@.repository,
        final(graph)@.directories == old(graph)@.directories,
        final(graph)@.files == old(graph)@.files,
        symbols_from(final(graph)@, symbols),
        match r {
            Ok((deferred, any, deferred_origin)) => {
                &&& symbol_pass(old(graph)@, pending@) == Ok::<
                    (GraphView, Seq<Symbol>, bool),
                    (u64, GraphErrorView),
                >((final(graph)@, deferred@, any))
                &&& pending_from(deferred@, symbols, deferred_origin@)
                &&& placed_or_pending(final(graph)@, symbols, deferred_origin@, 0)
                &&& any ==> deferred@.len() < pending@.len()
                &&& !any ==> deferred@.len() == pending@.len()
            },
            Err(IndexError::InsertSymbol { symbol_id, source }) => {
                &&& symbol_pass(old(graph)@, pending@) == Err::<
                    (GraphView, Seq<Symbol>, bool),
                    (u64, GraphErrorView),
                >((symbol_id@, source@))
                &&& exists|i: int| 0 <= i < symbols.len() && extracted_key(symbols[i]) == symbol_id@
            },
            Err(_) => false,
        },
{
    let ghost pass_start = graph@;
    assert(pending@.take(0) =~= Seq::<Symbol>::empty());
    assert(symbol_pass(pass_start, pending@.take(0)) == Ok::<
        (GraphView, Seq<Symbol>, bool),
        (u64, GraphErrorView),
    >((pass_start, Seq::empty(), false))) by {
        reveal(symbol_pass);
    }
    let mut deferred: Vec<Symbol> = Vec::new();
    let ghost mut deferred_origin: Seq<int> = Seq::empty();
    let mut inserted_any = false;
    let mut j: usize = 0;
    while j < pending.len()
        invariant
            j <= pending@.len(),
            pass_start == old(graph)@,
            graph.wf(),
            graph@.repository == pass_start.repository,
            graph@.directories == pass_start.directories,
            graph@.files == pass_start.files,
            pending_from(pending@, symbols, origin),
            pending_from(deferred@, symbols, deferred_origin),
            forall|i: int|
                0 <= i < symbols.len() ==> symbol_in_graph(graph@, #[trigger] symbols[i]) || (exists|
                    t: int,
                | j <= t < origin.len() && origin[t] == i) || (exists|t: int|
                    0 <= t < deferred_origin.len() && deferred_origin[t] == i),
            symbols_from(graph@, symbols),
            deferred@.len() + (if inserted_any {
                1int
            } else {
                0int
            }) <= j,
            !inserted_any ==> deferred@.len() == j,
            symbol_pass(pass_start, pending@.take(j as int)) == Ok::<
                (GraphView, Seq<Symbol>, bool),
                (u64, GraphErrorView),
            >((graph@, deferred@, inserted_any)),
        decreases pending@.len() - j,
    {
        let symbol = &pending[j];
        let ghost before = graph@;
        let ghost idx = origin[j as int];
        let ghost old_deferred = deferred_origin;
        assert(pending@.take(j + 1).drop_last() =~= pending@.take(j as int));
        assert(pending@.take(j + 1).last() == pending@[j as int]);
        let result = try_insert_symbol(graph, symbol);
        match result {
            Ok(()) => {
                inserted_any = true;
                assert(symbol_in_graph(graph@, symbols[idx]));
            },
            Err(source) => {
                if is_missing_symbol(&source) {
                    deferred.push(symbol.duplicate());
                    proof {
                        deferred_origin = deferred_origin.push(idx);
                    }
                    assert(symbol_for(deferred@[deferred@.len() - 1], symbols[idx]));
                } else {
                    proof {
                        assert(symbol_attempt(before, pending@[j as int]).1 == Some(source@));
                        assert(symbol_pass(pass_start, pending@.take(j + 1)) == Err::<
                            (GraphView, Seq<Symbol>, bool),
                            (u64, GraphErrorView),
                        >((symbol.id@, source@))) by {
                            reveal(symbol_pass);
                        }
                        lemma_symbol_pass_stops(pass_start, pending@, j + 1);
                        assert(extracted_key(symbols[idx]) == symbol.id@);
                    }
                    return Err(IndexError::InsertSymbol { symbol_id: symbol.id, source });
                }
            },
        }
        assert(symbol_pass(pass_start, pending@.take(j + 1)) == Ok::<
            (GraphView, Seq<Symbol>, bool),
            (u64, GraphErrorView),
        >((graph@, deferred@, inserted_any))) by {
            reveal(symbol_pass);
        }
        assert forall|i: int|
            0 <= i < symbols.len() implies symbol_in_graph(graph@, #[trigger] symbols[i]) || (exists|
            t: int,
        | j + 1 <= t < origin.len() && origin[t] == i) || (exists|t: int|
            0 <= t < deferred_origin.len() && deferred_origin[t] == i) by {
            if symbol_in_graph(before, symbols[i]) {
                assert(before.symbols.contains_key(extracted_key(symbols[i])));
            } else if exists|t: int| 0 <= t < old_deferred.len() && old_deferred[t] == i {
                let t = choose|t: int| 0 <= t < old_deferred.len() && old_deferred[t] == i;
                assert(deferred_origin[t] == i);
            } else {
                let t = choose|t: int| j <= t < origin.len() && origin[t] == i;
                if t > j {
                    assert(j + 1 <= t < origin.len() && origin[t] == i);
                } else if !symbol_in_graph(graph@, symbols[i]) {
                    assert(deferred_origin[deferred_origin.len() - 1] == i);
                }
            }
        }
        assert forall|k: u64| #[trigger] graph@.symbols.contains_key(k) implies exists|i: int|
            0 <= i < symbols.len() && extracted_key(#[trigger] symbols[i]) == k by {
            if !before.symbols.contains_key(k) {
                assert(extracted_key(symbols[idx]) == k);
            }
        }
        j += 1;
    }
    assert(pending@.take(j as int) =~= pending@);
    assert forall|i: int|
        0 <= i < symbols.len() implies symbol_in_graph(graph@, #[trigger] symbols[i]) || exists|
        t: int,
    | 0 <= t < deferred_origin.len() && deferred_origin[t] == i by {
        if exists|t: int| j <= t < origin.len() && origin[t] == i {
            let t = choose|t: int| j <= t < origin.len() && origin[t] == i;
            assert(false);
        }
    }
    Ok((deferred, inserted_any, Ghost(deferred_origin)))
}

/// With nothing pending, the passes leave the graph as it is.
proof fn lemma_passes_done(g: GraphView, pending: Seq<Symbol>)
    requires
        pending.len() == 0,
    ensures
        symbol_passes(g, pending) == Ok::<GraphView, (u64, GraphErrorView)>(g),
{
    reveal(symbol_passes);
}

/// A refused pass refuses the passes with its error.
proof fn lemma_passes_refused(g: GraphView, pending: Seq<Symbol>)
    requires
        pending.len() > 0,
        symbol_pass(g, pending) is Err,
    ensures
        symbol_passes(g, pending) == Err::<GraphView, (u64, GraphErrorView)>(
            symbol_pass(g, pending)->Err_0,
        ),
{
    reveal(symbol_passes);
}

/// After a pass, the passes go on with the deferred symbols when the pass inserted one, and
/// stop with a missing-symbol error for the first deferred symbol when it inserted none.
proof fn lemma_passes_step(g: GraphView, pending: Seq<Symbol>)
    requires
        pending.len() > 0,
        symbol_pass(g, pending) is Ok,
        symbol_pass(g, pending)->Ok_0.2 ==> symbol_pass(g, pending)->Ok_0.1.len() < pending.len(),
        !symbol_pass(g, pending)->Ok_0.2 ==> symbol_pass(g, pending)->Ok_0.1.len() == pending.len(),
    ensures
        ({
            let (g1, deferred, any) = symbol_pass(g, pending)->Ok_0;
            if any {
                symbol_passes(g, pending) == symbol_passes(g1, deferred)
            } else {
                symbol_passes(g, pending) == Err::<GraphView, (u64, GraphErrorView)>(
                    (
                        deferred[0].id@,
                        GraphErrorView::MissingEntity {
                            entity: "symbol"@,
                            id: id_text("symbol"@, deferred[0].id@),
                        },
                    ),
                )
            }
        }),
{
    reveal(symbol_passes);
}

/// Inserts the symbols in passes: a symbol whose owner symbol is not in the graph yet is
/// deferred to the next pass; a pass that inserts nothing ends with a missing-symbol
/// error for the first deferred symbol.
fn insert_symbols(
    graph: &mut RepositoryGraph,
    symbols: &Vec<ExtractedSymbol>,
    converted: Vec<Symbol>,
) -> (r: Result<(), IndexError>)
    requires
        old(graph).wf(),
        old(graph)@.symbols.dom().is_empty(),
        converted@.len() == symbols@.len(),
        forall|i: int| 0 <= i < converted@.len() ==> symbol_for(#[trigger] converted@[i], symbols@[i]),
    ensures
        final(graph).wf(),
        final(graph)@.repository == old(graph)@.repository,
        final(graph)@.directories == old(graph)@.directories,
        final(graph)@.files == old(graph)@.files,
        match r {
            Ok(()) => forall|i: int|
                0 <= i < symbols@.len() ==> symbol_in_graph(final(graph)@, #[trigger] symbols@[i]),
            Err(IndexError::InsertSymbol { symbol_id, .. }) => exists|i: int|
                0 <= i < symbols@.len() && extracted_key(symbols@[i]) == symbol_id@,
            Err(_) => false,
        },
        symbols_from(final(graph)@, symbols@),
        match (r, symbol_passes(old(graph)@, converted@)) {
            (Ok(()), Ok(g)) => final(graph)@ == g,
            (Err(IndexError::InsertSymbol { symbol_id, source }), Err((id, ev))) => symbol_id@ == id
                && source@ == ev,
            _ => false,
        },
{
    let ghost g0 = graph@;
    let ghost outcome = symbol_passes(g0, converted@);
    let mut pending = converted;
    let ghost mut origin: Seq<int> = Seq::new(symbols@.len(), |i: int| i);
    assert forall|i: int| 0 <= i < symbols@.len() implies symbol_in_graph(
        graph@,
        #[trigger] symbols@[i],
    ) || exists|j: int| 0 <= j < origin.len() && origin[j] == i by {
        assert(origin[i] == i);
    }
    while pending.len() > 0
        invariant
            g0 == old(graph)@,
            graph.wf(),
            graph@.repository == g0.repository,
            graph@.directories == g0.directories,
            graph@.files == g0.files,
            pending_from(pending@, symbols@, origin),
            placed_or_pending(graph@, symbols@, origin, 0),
            symbols_from(graph@, symbols@),
            symbol_passes(graph@, pending@) == outcome,
            outcome == symbol_passes(g0, converted@),
        decreases pending@.len(),
    {
        let ghost pass_start = graph@;
        let ghost pass_pending = pending@;
        let (deferred, inserted_any, Ghost(deferred_origin)) = match insert_pass(
            graph,
            &pending,
            Ghost(symbols@),
            Ghost(origin),
        ) {
            Ok(pass) => pass,
            Err(e) => {
                proof {
                    lemma_passes_refused(pass_start, pending@);
                }
                return Err(e);
            },
        };
        proof {
            lemma_passes_step(pass_start, pending@);
        }
        if !inserted_any {
            let first = &deferred[0];
            assert(extracted_key(symbols@[deferred_origin[0]]) == first.id@);
            return Err(
                IndexError::InsertSymbol {
                    symbol_id: first.id,
                    source: GraphError::MissingEntity { entity: "symbol", id: first.id.to_string() },
                },
            );
        }
        pending = deferred;
        proof {
            origin = deferred_origin;
        }
    }
    proof {
        lemma_passes_done(graph@, pending@);
    }
    Ok(())
}


/// The graph of a repository before anything is added to it: the repository alone.
pub open spec fn empty_graph(repository: Repository) -> GraphView {
    GraphView {
        repository,
        directories: Map::empty(),
        files: Map::empty(),
        symbols: Map::empty(),
        relationships: Map::empty(),
    }
}

/// Whether `cs` are graph symbols made, one for one, from the extracted symbols `es`.
pub open spec fn converted_from(cs: Seq<Symbol>, es: Seq<ExtractedSymbol>) -> bool {
    cs.len() == es.len() && forall|i: int| 0 <= i < cs.len() ==> symbol_for(#[trigger] cs[i], es[i])
}

/// What building the graph of `scan` with the extracted `symbols` gives: the graph that
/// adding the directories, the files and then the symbols yields, or the error of the first
/// refusal, naming what was refused.
pub open spec fn graph_build(
    scan: RepositoryScan,
    symbols: Seq<ExtractedSymbol>,
    r: Result<RepositoryGraph, IndexError>,
) -> bool {
    match directories_step(empty_graph(scan.repository), scan.directories@) {
        Err((i, ev)) => (r matches Err(IndexError::InsertDirectory { directory_id, source })
            && directory_id == scan.directories@[i].id && source@ == ev),
        Ok(g1) => match files_step(g1, scan.files@) {
            Err((i, ev)) => (r matches Err(IndexError::InsertFile { file_id, source }) && file_id
                == scan.files@[i].id && source@ == ev),
            Ok(g2) => match first_unconvertible(symbols) {
                Some((i, ev)) => (r matches Err(IndexError::InsertSymbol { symbol_id, source })
                    && symbol_id == symbols[i].id && source@ == ev),
                None => exists|cs: Seq<Symbol>|
                    #[trigger] converted_from(cs, symbols) && match symbol_passes(g2, cs) {
                        Err((id, ev)) => (r matches Err(IndexError::InsertSymbol { symbol_id, source })
                            && symbol_id@ == id && source@ == ev),
                        Ok(g3) => (r matches Ok(g) && g@ == g3),
                    },
            },
        },
    }
}

/// Builds the graph of a scan and its extracted symbols: the repository, then the scan's
/// directories in order, then its files in order, each with its `contains` edge; then the
/// graph symbols made from the extracted ones, in passes that defer a symbol until its
/// owner symbol is in, each with its `defines` edge. The first refusal is the error,
/// naming the directory, file or symbol refused.
pub fn build_graph_from_scan(scan: &RepositoryScan, symbols: &Vec<ExtractedSymbol>) -> (r: Result<
    RepositoryGraph,
    IndexError,
>)
    ensures
        match r {
            Ok(g) => g.wf() && holds_directories(g@, *scan, scan.directories@.len() as int)
                && holds_files(g@, *scan, scan.files@.len() as int) && holds_symbols(g@, symbols@),
            Err(IndexError::InsertDirectory { directory_id, .. }) => exists|i: int|
                0 <= i < scan.directories@.len() && scan.directories@[i].id == directory_id,
            Err(IndexError::InsertFile { file_id, .. }) => exists|i: int|
                0 <= i < scan.files@.len() && scan.files@[i].id == file_id,
            Err(IndexError::InsertSymbol { symbol_id, .. }) => exists|i: int|
                0 <= i < symbols@.len() && (symbols@[i].id == symbol_id || extracted_key(
                    symbols@[i],
                ) == symbol_id@),
            Err(_) => false,
        },
        graph_build(*scan, symbols@, r),
{
    let mut graph = RepositoryGraph::new(scan.repository.duplicate());
    assert(graph@ =~= empty_graph(scan.repository));
    assert(graph@.directories.dom() =~= Set::<u64>::empty());
    assert(graph@.files.dom() =~= Set::<u64>::empty());
    assert(graph@.symbols.dom() =~= Set::<u64>::empty());
    match insert_scan_directories(&mut graph, scan) {
        Ok(()) => {},
        Err(e) => {
            return Err(e);
        },
    }
    match insert_scan_files(&mut graph, scan) {
        Ok(()) => {},
        Err(e) => {
            return Err(e);
        },
    }
    let converted = match convert_symbols(symbols) {
        Ok(converted) => converted,
        Err(e) => {
            return Err(e);
        },
    };
    assert(converted_from(converted@, symbols@));
    let ghost before = graph@;
    match insert_symbols(&mut graph, symbols, converted) {
        Ok(()) => {},
        Err(e) => {
            return Err(e);
        },
    }
    assert(holds_directories(graph@, *scan, scan.directories@.len() as int));
    assert(holds_files(graph@, *scan, scan.files@.len() as int));
    let r: Result<RepositoryGraph, IndexError> = Ok(graph);
    assert(r->Ok_0 == graph);
    r
}


/// Indexes a scanned repository: parses the files a registered plugin supports (reading
/// each source with `read_source`), extracts their symbols plugin by plugin, and builds the
/// graph of the scan and those symbols.
pub fn index_repository<F: Fn(&RelativePath) -> Result<String, std::io::Error>>(
    scan: RepositoryScan,
    registry: &LanguageRegistry,
    read_source: F,
) -> (r: Result<RepositoryIndex, IndexError>)
    requires
        forall|p: &RelativePath| read_source.requires((p,)),
    ensures
        match r {
            Ok(index) => {
                &&& index.scan == scan
                &&& parsed_in_scan_order(
                    index.parsed_files@,
                    scan.files@,
                    accepted_positions(scan.files@, registry.plugins(), scan.files@.len() as int),
                )
                &&& sources_read(
                    read_source,
                    index.parsed_files@,
                    scan.files@,
                    accepted_positions(scan.files@, registry.plugins(), scan.files@.len() as int),
                )
                &&& dispatched_symbols(index.parsed_files@, registry.plugins(), index.symbols@)
                &&& index.graph.wf()
                &&& holds_directories(index.graph@, scan, scan.directories@.len() as int)
                &&& holds_files(index.graph@, scan, scan.files@.len() as int)
                &&& holds_symbols(index.graph@, index.symbols@)
                &&& graph_build(scan, index.symbols@, Ok(index.graph))
            },
            Err(IndexError::Parse { source }) => exists|i: int|
                0 <= i < scan.files@.len() && parse_error_path(source)
                    == scan.files@[i].relative_path@,
            Err(IndexError::Scan { .. }) => false,
            Err(e) => exists|symbols: Seq<ExtractedSymbol>|
                graph_build(scan, symbols, Err::<RepositoryGraph, IndexError>(e)),
        },
{
    let parsed = parse_repository_scan(&scan, registry, read_source);
    let parsed_files = match parsed {
        Ok(parsed_files) => parsed_files,
        Err(source) => {
            return Err(IndexError::Parse { source });
        },
    };
    assert(parsed->Ok_0 == parsed_files);
    let ghost picked = accepted_positions(
        scan.files@,
        registry.plugins(),
        scan.files@.len() as int,
    );
    let symbols = extract_repository_symbols(&parsed_files, registry);
    let graph = match build_graph_from_scan(&scan, &symbols) {
        Ok(graph) => graph,
        Err(e) => {
            return Err(e);
        },
    };
    let index = RepositoryIndex { scan, parsed_files, symbols, graph };
    assert(parsed_in_scan_order(index.parsed_files@, scan.files@, picked));
    assert(sources_read(read_source, index.parsed_files@, scan.files@, picked));
    let r: Result<RepositoryIndex, IndexError> = Ok(index);
    assert(r->Ok_0 == index);
    r
}

impl IndexError {
    /// Renders the error as a human-readable message.
    pub fn to_string(&self) -> (s: String)
        ensures
            match self {
                IndexError::Scan { source } => exists|d1: Seq<char>, d2: Seq<char>|
                    s@ == "failed to scan repository: "@ + crate::scan::scan_error_message(
                        source,
                        d1,
                        d2,
                    ),
                IndexError::Parse { source } => exists|t: Seq<char>|
                    s@ == "failed to parse repository: "@ + crate::parser::parse_error_message(
                        source,
                        t,
                    ),
                IndexError::InsertDirectory { directory_id, source } => s@
                    == "failed to populate directory `"@ + id_text("dir"@, directory_id@) + "`: "@
                    + crate::error::graph_error_message(source@),
                IndexError::InsertFile { file_id, source } => s@ == "failed to populate file `"@
                    + id_text("file"@, file_id@) + "`: "@ + crate::error::graph_error_message(
                    source@,
                ),
                IndexError::InsertSymbol { symbol_id, source } => s@
                    == "failed to populate symbol `"@ + id_text("symbol"@, symbol_id@) + "`: "@
                    + crate::error::graph_error_message(source@),
            },
    {
        let mut s = String::new();
        match self {
            IndexError::Scan { source } => {
                let m = source.to_string();
                s.append("failed to scan repository: ");
                s.append(m.as_str());
                proof {
                    let (d1, d2) = choose|d1: Seq<char>, d2: Seq<char>|
                        m@ == crate::scan::scan_error_message(source, d1, d2);
                    assert(s@ =~= "failed to scan repository: "@ + crate::scan::scan_error_message(
                        source,
                        d1,
                        d2,
                    ));
                }
            },
            IndexError::Parse { source } => {
                let m = source.to_string();
                s.append("failed to parse repository: ");
                s.append(m.as_str());
                proof {
                    let t = choose|t: Seq<char>| m@ == crate::parser::parse_error_message(source, t);
                    assert(s@ =~= "failed to parse repository: "@
                        + crate::parser::parse_error_message(source, t));
                }
            },
            IndexError::InsertDirectory { directory_id, source } => {
                s.append("failed to populate directory `");
                s.append(directory_id.to_string().as_str());
                s.append("`: ");
                s.append(source.to_string().as_str());
                assert(s@ =~= "failed to populate directory `"@ + id_text("dir"@, directory_id@)
                    + "`: "@ + crate::error::graph_error_message(source@));
            },
            IndexError::InsertFile { file_id, source } => {
                s.append("failed to populate file `");
                s.append(file_id.to_string().as_str());
                s.append("`: ");
                s.append(source.to_string().as_str());
                assert(s@ =~= "failed to populate file `"@ + id_text("file"@, file_id@) + "`: "@
                    + crate::error::graph_error_message(source@));
            },
            IndexError::InsertSymbol { symbol_id, source } => {
                s.append("failed to populate symbol `");
                s.append(symbol_id.to_string().as_str());
                s.append("`: ");
                s.append(source.to_string().as_str());
                assert(s@ =~= "failed to populate symbol `"@ + id_text("symbol"@, symbol_id@)
                    + "`: "@ + crate::error::graph_error_message(source@));
            },
        }
        s
    }
}

} // verus!
