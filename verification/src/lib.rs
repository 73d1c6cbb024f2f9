//! Leshy: a code-graph model of a repository with deterministic identifiers: its
//! directories, files and Rust symbols, with the structural edges between them.

mod crates;
mod error;
mod extract;
mod graph;
mod ignore;
mod ids;
mod index;
mod layout;
mod origin;
mod parser;
mod path;
mod resolve;
mod rust_lang;
mod scan;
mod syntax;
mod text;
mod use_tree;

pub use crate::error::{GraphError, GraphErrorView};
pub use crate::extract::{extract_item_symbols, ExtractedSymbol};
pub use crate::ignore::{
    directory_rules, glob_matches, is_ignored, parse_ignore_rules, rule_matches, walk_step_kept,
    IgnoreRule,
};
pub use crate::graph::{
    Directory, EntityId, EntityKind, File, GraphView, Relationship, RelationshipId,
    RelationshipKind, Repository, RepositoryGraph, Symbol, SymbolKind, SymbolOwner,
};
pub use crate::ids::{stable_hash, DirectoryId, FileId, RepositoryId, SymbolId};
pub use crate::index::{
    build_graph_from_scan, index_repository, symbol_from_extracted, IndexError, RepositoryIndex,
};
pub use crate::layout::{
    crate_scope_key, crate_scope_preference, direct_crate_scope, file_namespace,
    module_namespace_from_segments, package_prefix, path_anchored_crate_scope,
    preferred_crate_scope, rust_source_layout, scope_matches_package, RustSourceLayout,
};
pub use crate::origin::{
    normalize_git_origin, parse_common_dir_reference, parse_git_dir_reference, parse_origin_url,
};
pub use crate::parser::{
    extract_repository_symbols, map_plugin_error, parse_repository_scan, parse_scanned_file,
    LanguageId, LanguagePlugin,
    LanguagePluginError, LanguageRegistry, ParseError, ParsedFile, SourceLanguage,
};
pub use crate::path::RelativePath;
pub use crate::crates::{
    collect_crate_use_aliases, collect_repository_symbol_owners, extract_crate_symbols,
    module_owner_for_file, resolved_crate_scope_for_file, CrateOwners, SourceItems,
};
pub use crate::rust_lang::{
    extract_rust_repository_symbols, extract_symbols, parse_source, rust_language_id,
    source_items, supports_path, RustLanguagePlugin,
};
pub use crate::scan::{
    relative_path_depth, repository_identity, sort_scan_entries, start_scan, walk_entry_step,
    RepositoryIdentitySource, RepositoryScan, ScanError, SkippedPath, SkippedPathReason,
    WalkEntryKind, WalkStep,
};
pub use crate::syntax::{
    root_kind, text_between, tree_has_error, tree_items, SourcePosition, SourceSpan, SyntaxItem,
};
pub use crate::text::{chars_of, string_from_chars, string_from_range};
pub use crate::use_tree::{
    canonicalize_use_target, join_use_prefix, parse_use_declaration, split_top_level,
    split_use_alias, split_use_group, strip_use_visibility,
};
