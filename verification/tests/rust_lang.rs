use leshy::{
    extract_item_symbols, extract_symbols, parse_source, root_kind, supports_path, tree_has_error,
    FileId, LanguageId, ParsedFile, RelativePath, RepositoryId, SourcePosition, SourceSpan,
    SymbolId, SymbolKind, SymbolOwner, SyntaxItem,
};

fn parsed(path: &str, source: &str) -> ParsedFile {
    let tree = parse_source(source).expect("parse should succeed");
    let relative_path = RelativePath::new(path).expect("relative path should build");
    ParsedFile {
        file_id: FileId::new(RepositoryId::new("repository"), &relative_path),
        relative_path,
        language: LanguageId::new("rust"),
        source_text: source.to_string(),
        tree,
    }
}

#[test]
fn lib_matches_rust_source_files() {
    assert!(supports_path("src/lib.rs"));
    assert!(!supports_path("README.md"));
}

#[test]
fn tests_matches_rust_source_files() {
    assert!(supports_path("src/lib.rs"));
    assert!(!supports_path("README.md"));
}

#[test]
fn extension_rules_follow_the_final_component() {
    assert!(supports_path("lib.rs"));
    assert!(supports_path("src/lib.rs/"));
    assert!(supports_path("src/lib.rs/."));
    assert!(!supports_path(".rs"));
    assert!(!supports_path("src/.rs"));
    assert!(!supports_path("src/lib.rsx"));
    assert!(!supports_path("src/rs"));
    assert!(!supports_path(".."));
    assert!(supports_path("a..rs"));
}

#[test]
fn lib_parses_valid_rust_source() {
    let tree = parse_source("pub fn meaning() -> i32 { 42 }\n").expect("parse should succeed");

    assert_eq!(root_kind(&tree), "source_file");
    assert!(!tree_has_error(&tree));
}

#[test]
fn tests_parses_valid_rust_source() {
    let tree = parse_source("pub fn meaning() -> i32 { 42 }\n").expect("parse should succeed");

    assert_eq!(root_kind(&tree), "source_file");
    assert!(!tree_has_error(&tree));
}

#[test]
fn lib_returns_tree_with_errors_for_invalid_rust_source() {
    let tree = parse_source("fn broken( {\n").expect("parse should still return a tree");

    assert!(tree_has_error(&tree));
}

#[test]
fn tests_returns_tree_with_errors_for_invalid_rust_source() {
    let tree = parse_source("fn broken( {\n").expect("parse should still return a tree");

    assert!(tree_has_error(&tree));
}

const PRIMARY_SOURCE: &str = r#"
pub mod nested {
    pub struct Widget;
    pub enum Mode {
        Basic,
    }

    pub trait Runnable {
        fn run(&self);
    }

    pub const LIMIT: usize = 8;
}

pub type Alias = nested::Widget;
pub static CACHE: usize = 1;
pub fn build() {}

impl nested::Widget {
    pub fn new() -> Self {
        Self
    }
}
"#;

fn check_primary_symbols() {
    let parsed_file = parsed("src/lib.rs", PRIMARY_SOURCE);
    let symbols = extract_symbols(&parsed_file);
    let extracted: Vec<(String, SymbolKind)> = symbols
        .iter()
        .map(|symbol| (symbol.display_name.clone(), symbol.kind))
        .collect();

    assert_eq!(
        extracted,
        vec![
            ("nested".to_string(), SymbolKind::Module),
            ("Widget".to_string(), SymbolKind::Type),
            ("Mode".to_string(), SymbolKind::Type),
            ("Runnable".to_string(), SymbolKind::Type),
            ("run".to_string(), SymbolKind::Method),
            ("LIMIT".to_string(), SymbolKind::Constant),
            ("Alias".to_string(), SymbolKind::Type),
            ("CACHE".to_string(), SymbolKind::Constant),
            ("build".to_string(), SymbolKind::Function),
            ("new".to_string(), SymbolKind::Method),
        ]
    );

    let nested_module = &symbols[0];
    assert_eq!(nested_module.stable_key, "module:nested");
    assert_eq!(
        nested_module.id,
        SymbolId::new(parsed_file.file_id, "module:nested")
    );
    assert_eq!(nested_module.span.start.line, 1);
    assert_eq!(nested_module.span.start.column, 0);
    assert!(nested_module.span.end_byte > nested_module.span.start_byte);
    assert_eq!(symbols[4].stable_key, "method:nested::Runnable::run");
    assert_eq!(symbols[9].stable_key, "method:nested::Widget::new");
    assert_eq!(
        symbols[9].owner,
        SymbolOwner::Symbol(SymbolId::new(parsed_file.file_id, "type:nested::Widget"))
    );
}

#[test]
fn lib_extracts_primary_rust_symbols_from_a_file() {
    check_primary_symbols();
}

#[test]
fn tests_extracts_primary_rust_symbols_from_a_file() {
    check_primary_symbols();
}

fn check_functions_inside_modules() {
    let parsed_file = parsed("src/lib.rs", "\nmod nested {\n    fn helper() {}\n}\n");
    let symbols = extract_symbols(&parsed_file);

    assert_eq!(symbols[0].stable_key, "module:nested");
    assert_eq!(symbols[1].kind, SymbolKind::Function);
    assert_eq!(symbols[1].stable_key, "fn:nested::helper");
    assert_eq!(
        symbols[1].owner,
        SymbolOwner::Symbol(SymbolId::new(parsed_file.file_id, "module:nested"))
    );
}

#[test]
fn lib_keeps_functions_inside_modules_classified_as_functions() {
    check_functions_inside_modules();
}

#[test]
fn tests_keeps_functions_inside_modules_classified_as_functions() {
    check_functions_inside_modules();
}

const TRAIT_IMPLS_SOURCE: &str = r#"
trait Read {
    fn read(&self);
}

trait Write {
    fn read(&self);
}

struct Stream;

impl Read for Stream {
    fn read(&self) {}
}

impl Write for Stream {
    fn read(&self) {}
}
"#;

fn check_trait_impl_methods() {
    let parsed_file = parsed("src/lib.rs", TRAIT_IMPLS_SOURCE);
    let symbols = extract_symbols(&parsed_file);
    let read_methods: Vec<&leshy::ExtractedSymbol> = symbols
        .iter()
        .filter(|symbol| symbol.display_name == "read" && symbol.kind == SymbolKind::Method)
        .collect();

    assert_eq!(read_methods.len(), 4);
    assert_eq!(read_methods[0].stable_key, "method:Read::read");
    assert_eq!(read_methods[1].stable_key, "method:Write::read");
    assert_eq!(read_methods[2].stable_key, "method:Read for Stream::read");
    assert_eq!(read_methods[3].stable_key, "method:Write for Stream::read");
    assert_ne!(read_methods[2].id, read_methods[3].id);
}

#[test]
fn lib_distinguishes_methods_from_multiple_trait_impls_for_the_same_type() {
    check_trait_impl_methods();
}

#[test]
fn tests_distinguishes_methods_from_multiple_trait_impls_for_the_same_type() {
    check_trait_impl_methods();
}

fn span() -> SourceSpan {
    SourceSpan::new(0, 1, SourcePosition::new(0, 0), SourcePosition::new(0, 1))
}

fn item(kind: &str, name: Option<&str>, body: Option<Vec<SyntaxItem>>) -> SyntaxItem {
    SyntaxItem {
        kind: kind.to_string(),
        name: name.map(str::to_string),
        type_text: None,
        trait_text: None,
        body,
        span: span(),
        text: None,
    }
}

#[test]
fn extracts_symbols_from_a_written_syntax_model() {
    let path = RelativePath::new("src/lib.rs").expect("path");
    let file_id = FileId::new(RepositoryId::new("repository"), &path);
    let mut imp = item("impl_item", None, Some(vec![item("const_item", Some("LIMIT"), None)]));
    imp.type_text = Some("Widget < u8 >".to_string());
    let items = vec![
        item(
            "mod_item",
            Some("outer"),
            Some(vec![item("struct_item", Some("Widget"), None)]),
        ),
        item("function_item", Some("  "), None),
        item("line_comment", Some("ignored"), None),
        imp,
    ];
    let symbols = extract_item_symbols(&items, file_id, &path);
    let keys: Vec<&str> = symbols.iter().map(|s| s.stable_key.as_str()).collect();
    assert_eq!(keys, vec!["module:outer", "type:outer::Widget", "const:Widget<u8>::LIMIT"]);
    assert_eq!(symbols[1].owner, SymbolOwner::Symbol(SymbolId::new(file_id, "module:outer")));
    assert_eq!(symbols[2].owner, SymbolOwner::File(file_id));
    assert_eq!(symbols[2].relative_path.as_str(), "src/lib.rs");
}

#[test]
fn associated_types_in_trait_impls_are_scoped_to_the_impl() {
    let source = "trait A {\n    type Item;\n}\n\nstruct Stream;\n\nimpl A for Stream {\n    type Item = u8;\n}\n";
    let parsed_file = parsed("src/lib.rs", source);
    let symbols = extract_symbols(&parsed_file);
    let keys: Vec<&str> = symbols.iter().map(|s| s.stable_key.as_str()).collect();
    assert_eq!(
        keys,
        vec!["type:A", "type:A::Item", "type:Stream", "type:A for Stream::Item"]
    );
    assert_eq!(
        symbols[3].owner,
        SymbolOwner::Symbol(SymbolId::new(parsed_file.file_id, "type:Stream"))
    );
}
