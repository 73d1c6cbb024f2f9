use std::collections::HashMap;
use std::path::PathBuf;

use leshy::{
    extract_repository_symbols, parse_origin_url, parse_repository_scan, repository_identity,
    root_kind, sort_scan_entries, start_scan, walk_entry_step, DirectoryId, ExtractedSymbol,
    LanguageId, LanguagePlugin, LanguagePluginError, LanguageRegistry, ParseError, ParsedFile,
    RelativePath, RepositoryGraph, RepositoryIdentitySource, RepositoryScan, RustLanguagePlugin,
    SkippedPathReason, SourceLanguage, SymbolId, SymbolKind, SymbolOwner, WalkEntryKind, WalkStep,
};

/// A repository held in memory: its root path, its git config if any, and its entries,
/// scanned through the library's scan decisions the way a repository on disk is.
struct MemoryRepository {
    root: String,
    git_config: Option<String>,
    directories: Vec<String>,
    files: Vec<(String, String)>,
}

impl MemoryRepository {
    fn new(root: &str) -> Self {
        Self {
            root: root.to_string(),
            git_config: None,
            directories: Vec::new(),
            files: Vec::new(),
        }
    }

    fn write_file(&mut self, relative_path: &str, contents: &str) {
        self.files.push((relative_path.to_string(), contents.to_string()));
    }

    fn create_dir_all(&mut self, relative_path: &str) {
        self.directories.push(relative_path.to_string());
    }

    fn write_git_config(&mut self, contents: &str) {
        self.git_config = Some(contents.to_string());
    }

    fn scan(&self) -> RepositoryScan {
        let origin = self.git_config.as_deref().and_then(parse_origin_url);
        let (stable_key, source) = repository_identity(origin.as_deref(), &self.root);
        let mut scan = start_scan(source, &stable_key, "repository", PathBuf::from(&self.root))
            .expect("scan should start");
        let repository_id = scan.repository.id;
        let root_id = scan.directories[0].id;
        let mut known: HashMap<String, DirectoryId> = HashMap::new();
        if self.git_config.is_some() {
            match walk_entry_step(repository_id, root_id, WalkEntryKind::Directory, ".git", ".git")
                .expect("git step")
            {
                WalkStep::Skip(reason) => scan.skipped.push(leshy::SkippedPath {
                    path: PathBuf::from(&self.root).join(".git"),
                    reason,
                }),
                _ => panic!("the git directory should be skipped"),
            }
        }
        let mut entries: Vec<(String, bool)> = Vec::new();
        for directory in &self.directories {
            entries.push((directory.clone(), false));
        }
        for (path, _) in &self.files {
            entries.push((path.clone(), true));
        }
        for (path, is_file) in entries {
            let parts: Vec<&str> = path.split('/').collect();
            let mut parent = root_id;
            let mut prefix = String::new();
            for (position, part) in parts.iter().enumerate() {
                if !prefix.is_empty() {
                    prefix.push('/');
                }
                prefix.push_str(part);
                let last = position + 1 == parts.len();
                if !last || !is_file {
                    if let Some(id) = known.get(&prefix) {
                        parent = *id;
                        continue;
                    }
                    match walk_entry_step(
                        repository_id,
                        parent,
                        WalkEntryKind::Directory,
                        part,
                        &prefix,
                    )
                    .expect("directory step")
                    {
                        WalkStep::Descend(directory) => {
                            known.insert(prefix.clone(), directory.id);
                            parent = directory.id;
                            scan.directories.push(directory);
                        }
                        _ => panic!("directory should be descended into"),
                    }
                } else {
                    match walk_entry_step(repository_id, parent, WalkEntryKind::File, part, &prefix)
                        .expect("file step")
                    {
                        WalkStep::Record(file) => scan.files.push(file),
                        _ => panic!("file should be recorded"),
                    }
                }
            }
        }
        sort_scan_entries(&mut scan);
        scan
    }

    fn read(&self, path: &RelativePath) -> Result<String, std::io::Error> {
        self.files
            .iter()
            .find(|(candidate, _)| candidate.as_str() == path.as_str())
            .map(|(_, contents)| contents.clone())
            .ok_or_else(|| std::io::Error::new(std::io::ErrorKind::NotFound, "no such file"))
    }

    fn parse(&self, registry: &LanguageRegistry) -> Result<Vec<ParsedFile>, ParseError> {
        parse_repository_scan(&self.scan(), registry, |path: &RelativePath| self.read(path))
    }
}

fn rust_registry() -> LanguageRegistry {
    LanguageRegistry::new().with_plugin(&RustLanguagePlugin)
}

struct MatchByExtensionPlugin;

impl LanguagePlugin for MatchByExtensionPlugin {
    // Specification-only methods: the verifier reads them, and they are never run.
    fn language_name(&self) -> vstd::seq::Seq<char> {
        unreachable!()
    }

    fn accepts(&self, _path: vstd::seq::Seq<char>) -> bool {
        unreachable!()
    }

    fn repository_symbols_of(
        &self,
        _files: vstd::seq::Seq<ParsedFile>,
        _symbols: vstd::seq::Seq<ExtractedSymbol>,
    ) -> bool {
        unreachable!()
    }

    fn language(&self) -> LanguageId {
        LanguageId::new("rust-test")
    }

    fn supports_path(&self, path: &str) -> bool {
        path.ends_with(".rs")
    }

    fn parse_source(&self, _source_text: &str) -> Result<tree_sitter::Tree, LanguagePluginError> {
        Err(LanguagePluginError::ParseReturnedNone)
    }

    fn extract_symbols(&self, _parsed_file: &ParsedFile) -> Vec<ExtractedSymbol> {
        Vec::new()
    }

    fn extract_repository_symbols(&self, _parsed_files: &Vec<&ParsedFile>) -> Vec<ExtractedSymbol> {
        Vec::new()
    }
}

struct ParseNonePlugin;

impl LanguagePlugin for ParseNonePlugin {
    // Specification-only methods: the verifier reads them, and they are never run.
    fn language_name(&self) -> vstd::seq::Seq<char> {
        unreachable!()
    }

    fn accepts(&self, _path: vstd::seq::Seq<char>) -> bool {
        unreachable!()
    }

    fn repository_symbols_of(
        &self,
        _files: vstd::seq::Seq<ParsedFile>,
        _symbols: vstd::seq::Seq<ExtractedSymbol>,
    ) -> bool {
        unreachable!()
    }

    fn language(&self) -> LanguageId {
        LanguageId::new("parse-none")
    }

    fn supports_path(&self, path: &str) -> bool {
        path.ends_with(".rs")
    }

    fn parse_source(&self, _source_text: &str) -> Result<tree_sitter::Tree, LanguagePluginError> {
        Err(LanguagePluginError::ParseReturnedNone)
    }

    fn extract_symbols(&self, _parsed_file: &ParsedFile) -> Vec<ExtractedSymbol> {
        Vec::new()
    }

    fn extract_repository_symbols(&self, _parsed_files: &Vec<&ParsedFile>) -> Vec<ExtractedSymbol> {
        Vec::new()
    }
}

#[test]
fn registry_selects_matching_plugin() {
    let path = RelativePath::new("src/lib.rs").expect("relative path should build");
    let registry = LanguageRegistry::new().with_plugin(&MatchByExtensionPlugin);

    let plugin = registry
        .plugin_for_relative_path(&path)
        .expect("plugin should match");

    assert_eq!(plugin.language(), LanguageId::new("rust-test"));
}

#[test]
fn lib_skips_unsupported_files() {
    let mut repo = MemoryRepository::new("/memory/skips");
    repo.write_file("README.md", "# Leshy");
    let registry = LanguageRegistry::new().with_plugin(&MatchByExtensionPlugin);

    let parsed = repo.parse(&registry).expect("parse should succeed");

    assert!(parsed.is_empty());
}

#[test]
fn propagates_plugin_parse_errors() {
    let mut repo = MemoryRepository::new("/memory/propagates");
    repo.write_file("src/lib.rs", "pub fn meaning() {}\n");
    let mut registry = LanguageRegistry::new();
    registry.register(&ParseNonePlugin);

    let error = repo.parse(&registry).expect_err("parse should fail");

    assert!(matches!(
        error,
        ParseError::ParseReturnedNone { ref path, language }
            if path.as_str() == "src/lib.rs" && language == LanguageId::new("parse-none")
    ));
}

#[test]
fn skips_all_files_when_registry_is_empty() {
    let mut repo = MemoryRepository::new("/memory/empty-registry");
    repo.write_file("src/lib.rs", "pub fn meaning() {}\n");

    let parsed = repo.parse(&LanguageRegistry::new()).expect("parse should skip");

    assert!(parsed.is_empty());
}

#[test]
fn detects_rust_files_by_extension() {
    let path = RelativePath::new("src/lib.rs").expect("relative path should build");

    assert_eq!(
        SourceLanguage::from_relative_path(&path),
        Some(SourceLanguage::Rust)
    );
}

#[test]
fn parse_skips_unsupported_files() {
    let mut repo = MemoryRepository::new("/memory/readme");
    repo.write_file("README.md", "# Leshy");

    let parsed = repo.parse(&rust_registry()).expect("parse should succeed");

    assert!(parsed.is_empty());
}

#[test]
fn parses_valid_rust_files() {
    let mut repo = MemoryRepository::new("/memory/valid");
    repo.write_file("src/lib.rs", "pub fn meaning() -> i32 { 42 }\n");

    let parsed = repo.parse(&rust_registry()).expect("parse should succeed");

    assert_eq!(parsed.len(), 1);
    assert_eq!(parsed[0].language, LanguageId::new("rust"));
    assert_eq!(parsed[0].relative_path.as_str(), "src/lib.rs");
    assert_eq!(root_kind(&parsed[0].tree), "source_file");
    assert_eq!(parsed[0].source_text, "pub fn meaning() -> i32 { 42 }\n");
}

#[test]
fn surfaces_rust_syntax_errors() {
    let mut repo = MemoryRepository::new("/memory/broken");
    repo.write_file("src/lib.rs", "fn broken( {\n");

    let error = repo.parse(&rust_registry()).expect_err("parse should fail");

    assert!(matches!(
        error,
        ParseError::SyntaxErrors { ref path, language } if path.as_str() == "src/lib.rs"
            && language == LanguageId::new("rust")
    ));
    assert!(error.to_string().contains("syntax errors"));
}

#[test]
fn read_failures_name_the_file_that_could_not_be_read() {
    let repo = MemoryRepository::new("/memory/unreadable");
    let mut scan = repo.scan();
    let file = match walk_entry_step(
        scan.repository.id,
        scan.directories[0].id,
        WalkEntryKind::File,
        "lib.rs",
        "lib.rs",
    )
    .expect("file step")
    {
        WalkStep::Record(file) => file,
        _ => panic!("file should be recorded"),
    };
    scan.files.push(file);

    let error = parse_repository_scan(&scan, &rust_registry(), |_path: &RelativePath| {
        Err(std::io::Error::new(std::io::ErrorKind::PermissionDenied, "denied"))
    })
    .expect_err("reading should fail");

    assert!(matches!(error, ParseError::ReadSource { ref path, .. } if path.as_str() == "lib.rs"));
    assert_eq!(error.to_string(), "failed to read source file `lib.rs`");
}

#[test]
fn scans_empty_repository_with_only_root_directory() {
    let repo = MemoryRepository::new("/memory/empty");

    let scan = repo.scan();

    assert_eq!(scan.identity_source, RepositoryIdentitySource::PathFallback);
    assert_eq!(scan.directories.len(), 1);
    assert_eq!(scan.directories[0].relative_path, RelativePath::root());
    assert!(scan.files.is_empty());
    assert!(scan.skipped.is_empty());
}

#[test]
fn emits_directories_parent_before_child() {
    let mut repo = MemoryRepository::new("/memory/nested");
    repo.create_dir_all("src/nested");

    let scan = repo.scan();
    let paths = scan
        .directories
        .iter()
        .map(|directory| directory.relative_path.to_string())
        .collect::<Vec<_>>();

    assert_eq!(paths, vec![".", "src", "src/nested"]);
}

#[test]
fn emits_files_in_lexicographic_relative_path_order() {
    let mut repo = MemoryRepository::new("/memory/ordered");
    repo.write_file("src/zeta/lib.rs", "");
    repo.write_file("src/alpha/main.rs", "");

    let scan = repo.scan();
    let files = scan
        .files
        .iter()
        .map(|file| file.relative_path.to_string())
        .collect::<Vec<_>>();

    assert_eq!(files, vec!["src/alpha/main.rs", "src/zeta/lib.rs"]);
}

#[test]
fn skips_git_directory_recursively() {
    let mut repo = MemoryRepository::new("/memory/git");
    repo.write_git_config("");
    repo.write_file("Cargo.toml", "");

    let scan = repo.scan();
    let files = scan
        .files
        .iter()
        .map(|file| file.relative_path.to_string())
        .collect::<Vec<_>>();

    assert_eq!(files, vec!["Cargo.toml"]);
    assert_eq!(scan.skipped.len(), 1);
    assert_eq!(scan.skipped[0].reason, SkippedPathReason::IgnoredGitDirectory);
    assert!(scan.skipped[0].path.ends_with(".git"));
}

#[test]
fn can_populate_repository_graph_from_scan_output() {
    let mut repo = MemoryRepository::new("/memory/graph");
    repo.write_file("src/lib.rs", "");
    repo.write_file("src/bin/app.rs", "");

    let scan = repo.scan();
    let mut graph = RepositoryGraph::new(scan.repository.clone());

    for directory in scan.directories {
        graph
            .insert_directory(directory)
            .expect("directory should insert");
    }

    for file in scan.files {
        graph.insert_file(file).expect("file should insert");
    }

    let root_id = DirectoryId::new(graph.repository().id, &RelativePath::root());
    assert!(graph.directory(root_id).is_some());
    assert_eq!(graph.directories().len(), 3);
    assert_eq!(graph.files().len(), 2);
}

#[test]
fn uses_git_origin_for_repository_identity() {
    let mut repo = MemoryRepository::new("/memory/origin");
    repo.write_git_config(
        r#"[remote "origin"]
    url = https://github.com/AdamTMalek/leshy.git
"#,
    );

    let scan = repo.scan();

    assert_eq!(scan.identity_source, RepositoryIdentitySource::GitOrigin);
    assert_eq!(scan.repository.stable_key, "github.com/AdamTMalek/leshy");
}

#[test]
fn git_origin_ids_are_stable_across_repository_moves() {
    let mut left = MemoryRepository::new("/memory/left");
    let mut right = MemoryRepository::new("/memory/right");
    left.write_git_config(
        r#"[remote "origin"]
    url = git@github.com:AdamTMalek/leshy.git
"#,
    );
    right.write_git_config(
        r#"[remote "origin"]
    url = git@github.com:AdamTMalek/leshy.git
"#,
    );
    left.write_file("src/lib.rs", "");
    right.write_file("src/lib.rs", "");

    let left_scan = left.scan();
    let right_scan = right.scan();

    assert_eq!(left_scan.identity_source, RepositoryIdentitySource::GitOrigin);
    assert_eq!(right_scan.identity_source, RepositoryIdentitySource::GitOrigin);
    assert_eq!(left_scan.repository.id, right_scan.repository.id);
    assert_eq!(left_scan.files[0].id, right_scan.files[0].id);
}

#[test]
fn normalizes_https_and_ssh_git_origins_to_the_same_identity() {
    let mut https = MemoryRepository::new("/memory/https");
    let mut ssh = MemoryRepository::new("/memory/ssh");
    let mut ssh_scheme = MemoryRepository::new("/memory/ssh-scheme");
    https.write_git_config(
        r#"[remote "origin"]
    url = https://github.com/AdamTMalek/leshy.git
"#,
    );
    ssh.write_git_config(
        r#"[remote "origin"]
    url = git@github.com:AdamTMalek/leshy.git
"#,
    );
    ssh_scheme.write_git_config(
        r#"[remote "origin"]
    url = ssh://git@github.com/AdamTMalek/leshy.git
"#,
    );

    let https_scan = https.scan();
    let ssh_scan = ssh.scan();
    let ssh_scheme_scan = ssh_scheme.scan();

    assert_eq!(https_scan.repository.stable_key, "github.com/AdamTMalek/leshy");
    assert_eq!(https_scan.repository.stable_key, ssh_scan.repository.stable_key);
    assert_eq!(
        https_scan.repository.stable_key,
        ssh_scheme_scan.repository.stable_key
    );
    assert_eq!(https_scan.repository.id, ssh_scan.repository.id);
    assert_eq!(https_scan.repository.id, ssh_scheme_scan.repository.id);
}

#[test]
fn git_repositories_without_origin_use_path_fallback() {
    let mut repo = MemoryRepository::new("/memory/no-origin");
    repo.write_git_config(
        r#"[core]
    repositoryformatversion = 0
"#,
    );

    let scan = repo.scan();

    assert_eq!(scan.identity_source, RepositoryIdentitySource::PathFallback);
}

#[test]
fn path_fallback_ids_change_across_repository_moves() {
    let mut left = MemoryRepository::new("/memory/left-plain");
    let mut right = MemoryRepository::new("/memory/right-plain");
    left.write_file("src/lib.rs", "");
    right.write_file("src/lib.rs", "");

    let left_scan = left.scan();
    let right_scan = right.scan();

    assert_eq!(left_scan.identity_source, RepositoryIdentitySource::PathFallback);
    assert_eq!(right_scan.identity_source, RepositoryIdentitySource::PathFallback);
    assert_ne!(left_scan.repository.id, right_scan.repository.id);
    assert_ne!(left_scan.files[0].id, right_scan.files[0].id);
}

#[test]
fn skips_symlinks_when_the_platform_allows_creating_them() {
    let repo = MemoryRepository::new("/memory/links");
    let scan = repo.scan();

    let step = walk_entry_step(
        scan.repository.id,
        scan.directories[0].id,
        WalkEntryKind::Symlink,
        "linked.rs",
        "linked.rs",
    )
    .expect("symlink step");

    assert!(matches!(step, WalkStep::Skip(SkippedPathReason::Symlink)));
}

const MINI_LIB_RS: &str = r#"use crate::model::{Record, RecordId};
use crate::service::Store;

mod model;
pub mod service;

pub const DEFAULT_BATCH_SIZE: usize = 64;

pub fn bootstrap(id: RecordId) -> Store {
    Store::new(Record::new(id, "bootstrap"))
}
"#;

const MINI_MODEL_RS: &str = r#"use std::fmt;

pub struct RecordId(pub u64);

pub struct Record {
    pub id: RecordId,
    pub name: &'static str,
}

pub enum Status {
    Ready,
    Archived,
}

pub const DEFAULT_NAME: &str = "pending";

impl Record {
    pub fn new(id: RecordId, name: &'static str) -> Self {
        Self { id, name }
    }
}

impl fmt::Display for RecordId {
    fn fmt(&self, f: &mut fmt::Formatter<'_>) -> fmt::Result {
        write!(f, "{}", self.0)
    }
}
"#;

const MINI_CACHE_RS: &str = r#"use crate::model::RecordId;

pub struct CacheEntry {
    pub id: RecordId,
}

pub static CACHE_CAPACITY: usize = 32;

impl CacheEntry {
    pub fn new(id: RecordId) -> Self {
        Self { id }
    }
}
"#;

const MINI_SERVICE_MOD_RS: &str = r#"use crate::model::{Record, RecordId};

pub mod cache;

pub trait Repository {
    type Error;

    fn load(&self, id: RecordId) -> Result<Record, Self::Error>;
}

pub struct Store;

impl Store {
    pub fn new(record: Record) -> Self {
        let _ = record;
        Self
    }

    pub fn fetch<R: Repository>(
        &self,
        repository: &R,
        id: RecordId,
    ) -> Result<Record, R::Error> {
        repository.load(id)
    }
}
"#;

fn mini_crate() -> MemoryRepository {
    let mut repo = MemoryRepository::new("/memory/mini_crate");
    repo.write_file("src/model.rs", MINI_MODEL_RS);
    repo.write_file("src/lib.rs", MINI_LIB_RS);
    repo.write_file("src/service/mod.rs", MINI_SERVICE_MOD_RS);
    repo.write_file("src/service/cache.rs", MINI_CACHE_RS);
    repo
}

fn symbols_for_path(symbols: &[ExtractedSymbol], path: &str) -> Vec<(String, SymbolKind, String)> {
    symbols
        .iter()
        .filter(|symbol| symbol.relative_path.as_str() == path)
        .map(|symbol| (symbol.display_name.clone(), symbol.kind, symbol.stable_key.clone()))
        .collect()
}

fn expected(items: &[(&str, SymbolKind, &str)]) -> Vec<(String, SymbolKind, String)> {
    items
        .iter()
        .map(|(name, kind, key)| (name.to_string(), *kind, key.to_string()))
        .collect()
}

fn assert_span_anchor(symbols: &[ExtractedSymbol], path: &str, name: &str, line: usize, column: usize) {
    let symbol = symbols
        .iter()
        .find(|symbol| symbol.relative_path.as_str() == path && symbol.display_name == name)
        .unwrap_or_else(|| panic!("missing anchor {name} in {path}"));

    assert_eq!(symbol.span.start.line, line, "wrong line for {name} in {path}");
    assert_eq!(symbol.span.start.column, column, "wrong column for {name} in {path}");
    assert!(symbol.span.end_byte > symbol.span.start_byte);
}

#[test]
fn extracts_expected_symbols_from_shared_fixture_crate() {
    let repo = mini_crate();
    let registry = rust_registry();
    let parsed_files = repo.parse(&registry).expect("fixture crate should parse");

    let parsed_paths: Vec<&str> = parsed_files
        .iter()
        .map(|parsed_file| parsed_file.relative_path.as_str())
        .collect();
    assert_eq!(
        parsed_paths,
        vec!["src/lib.rs", "src/model.rs", "src/service/cache.rs", "src/service/mod.rs"]
    );

    let symbols = extract_repository_symbols(&parsed_files, &registry);

    assert_eq!(
        symbols_for_path(&symbols, "src/lib.rs"),
        expected(&[
            ("model", SymbolKind::Module, "module:model"),
            ("service", SymbolKind::Module, "module:service"),
            ("DEFAULT_BATCH_SIZE", SymbolKind::Constant, "const:DEFAULT_BATCH_SIZE"),
            ("bootstrap", SymbolKind::Function, "fn:bootstrap"),
        ])
    );
    assert_eq!(
        symbols_for_path(&symbols, "src/model.rs"),
        expected(&[
            ("RecordId", SymbolKind::Type, "type:model::RecordId"),
            ("Record", SymbolKind::Type, "type:model::Record"),
            ("Status", SymbolKind::Type, "type:model::Status"),
            ("DEFAULT_NAME", SymbolKind::Constant, "const:model::DEFAULT_NAME"),
            ("new", SymbolKind::Method, "method:model::Record::new"),
            (
                "fmt",
                SymbolKind::Method,
                "method:std::fmt::Display for model::RecordId::fmt",
            ),
        ])
    );
    assert_eq!(
        symbols_for_path(&symbols, "src/service/cache.rs"),
        expected(&[
            ("CacheEntry", SymbolKind::Type, "type:service::cache::CacheEntry"),
            ("CACHE_CAPACITY", SymbolKind::Constant, "const:service::cache::CACHE_CAPACITY"),
            ("new", SymbolKind::Method, "method:service::cache::CacheEntry::new"),
        ])
    );
    assert_eq!(
        symbols_for_path(&symbols, "src/service/mod.rs"),
        expected(&[
            ("cache", SymbolKind::Module, "module:service::cache"),
            ("Repository", SymbolKind::Type, "type:service::Repository"),
            ("Error", SymbolKind::Type, "type:service::Repository::Error"),
            ("load", SymbolKind::Method, "method:service::Repository::load"),
            ("Store", SymbolKind::Type, "type:service::Store"),
            ("new", SymbolKind::Method, "method:service::Store::new"),
            ("fetch", SymbolKind::Method, "method:service::Store::fetch"),
        ])
    );

    assert_span_anchor(&symbols, "src/lib.rs", "bootstrap", 8, 0);
    assert_span_anchor(&symbols, "src/model.rs", "Record", 4, 0);
    assert_span_anchor(&symbols, "src/model.rs", "fmt", 23, 4);
    assert_span_anchor(&symbols, "src/service/mod.rs", "Repository", 4, 0);
    assert_span_anchor(&symbols, "src/service/cache.rs", "CacheEntry", 2, 0);
}

#[test]
fn reports_syntax_errors_for_invalid_fixture_crate() {
    let mut repo = MemoryRepository::new("/memory/invalid_crate");
    repo.write_file("src/lib.rs", "fn broken( {\n");

    let error = repo.parse(&rust_registry()).expect_err("invalid fixture should fail");

    assert!(matches!(
        error,
        ParseError::SyntaxErrors { ref path, .. } if path.as_str() == "src/lib.rs"
    ));
}

#[test]
fn rust_fixtures_resolves_cross_file_impl_targets_and_imported_type_names() {
    let mut repo = MemoryRepository::new("/memory/cross_file");
    repo.write_file(
        "src/lib.rs",
        "mod model;\nuse crate::model::Record;\nimpl model::Record { fn from_module() -> Self { Self } }\nimpl Record { fn from_import() -> Self { Self } }\n",
    );
    repo.write_file("src/model.rs", "pub struct Record;\n");

    let registry = rust_registry();
    let parsed_files = repo.parse(&registry).expect("crate should parse");
    let symbols = extract_repository_symbols(&parsed_files, &registry);
    let lib_file = parsed_files
        .iter()
        .find(|parsed_file| parsed_file.relative_path.as_str() == "src/lib.rs")
        .expect("lib file should be parsed");
    let model_file = parsed_files
        .iter()
        .find(|parsed_file| parsed_file.relative_path.as_str() == "src/model.rs")
        .expect("model file should be parsed");

    let from_module = symbols
        .iter()
        .find(|symbol| symbol.stable_key == "method:model::Record::from_module")
        .expect("module-qualified impl method should exist");
    let from_import = symbols
        .iter()
        .find(|symbol| symbol.stable_key == "method:model::Record::from_import")
        .expect("import-qualified impl method should exist");

    let owner = SymbolOwner::Symbol(SymbolId::new(model_file.file_id, "type:model::Record"));

    assert_eq!(from_module.file_id, lib_file.file_id);
    assert_eq!(from_import.file_id, lib_file.file_id);
    assert_eq!(from_module.owner, owner);
    assert_eq!(from_import.owner, owner);
}

#[test]
fn an_empty_registry_extracts_nothing() {
    let mut repo = MemoryRepository::new("/memory/no-plugins");
    repo.write_file("src/lib.rs", "pub fn library() {}\n");
    let parsed_files = repo.parse(&rust_registry()).expect("parse should succeed");

    assert_eq!(parsed_files.len(), 1);
    assert!(extract_repository_symbols(&parsed_files, &LanguageRegistry::new()).is_empty());
}

#[test]
fn resolves_git_origin_from_worktree_common_dir() {
    let mut disk: HashMap<PathBuf, String> = HashMap::new();
    let root = PathBuf::from("/memory/worktree");
    disk.insert(root.join(".git"), "gitdir: .git-main/worktrees/current-worktree\n".to_string());
    disk.insert(
        root.join(".git-main/worktrees/current-worktree/commondir"),
        "../..\n".to_string(),
    );
    disk.insert(
        root.join(".git-main/config"),
        "[remote \"origin\"]\n    url = https://github.com/AdamTMalek/leshy.git\n".to_string(),
    );

    let git_dir = root.join(
        leshy::parse_git_dir_reference(&disk[&root.join(".git")]).expect("gitdir reference"),
    );
    assert!(!disk.contains_key(&git_dir.join("config")));
    let common_dir = git_dir.join(
        leshy::parse_common_dir_reference(&disk[&git_dir.join("commondir")])
            .expect("commondir reference"),
    );
    let config_path = common_dir
        .join("config")
        .components()
        .fold(PathBuf::new(), |mut path, component| {
            match component {
                std::path::Component::ParentDir => {
                    path.pop();
                }
                other => path.push(other),
            }
            path
        });
    let origin = parse_origin_url(&disk[&config_path]).expect("origin url");
    let (stable_key, source) = repository_identity(Some(&origin), &root.to_string_lossy());

    assert_eq!(source, RepositoryIdentitySource::GitOrigin);
    assert_eq!(stable_key, "github.com/AdamTMalek/leshy");
}

#[test]
fn registry_selects_first_accepting_plugin() {
    let path = RelativePath::new("src/lib.rs").expect("relative path should build");
    let registry = LanguageRegistry::new()
        .with_plugin(&ParseNonePlugin)
        .with_plugin(&MatchByExtensionPlugin);
    let plugin = registry.plugin_for_relative_path(&path).expect("plugin should match");
    assert_eq!(plugin.language(), LanguageId::new("parse-none"));
    assert_eq!(registry.plugin_index_for(&path), Some(0));

    let reversed = LanguageRegistry::new()
        .with_plugin(&MatchByExtensionPlugin)
        .with_plugin(&ParseNonePlugin);
    let plugin = reversed.plugin_for_relative_path(&path).expect("plugin should match");
    assert_eq!(plugin.language(), LanguageId::new("rust-test"));

    let readme = RelativePath::new("README.md").expect("relative path should build");
    assert!(registry.plugin_for_relative_path(&readme).is_none());
    assert_eq!(registry.plugin_index_for(&readme), None);
}
