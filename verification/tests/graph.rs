use std::path::PathBuf;

use leshy::{
    Directory, DirectoryId, EntityId, File, FileId, GraphError, RelativePath, Relationship,
    RelationshipKind, Repository, RepositoryGraph, RepositoryId, Symbol, SymbolId, SymbolKind,
    SymbolOwner,
};

fn repository() -> Repository {
    Repository::new("repository", "leshy", PathBuf::from("C:/repos/leshy"))
        .expect("repository should build")
}

fn populated_graph() -> RepositoryGraph {
    let mut graph = RepositoryGraph::new(repository());

    let root = Directory::new(graph.repository().id, None, ".").expect("root directory");
    graph
        .insert_directory(root)
        .expect("root directory should insert");

    let root_id = DirectoryId::new(graph.repository().id, &RelativePath::root());
    let src_path = RelativePath::new("src").expect("path should normalize");
    let src_id = DirectoryId::new(graph.repository().id, &src_path);
    let file_path = RelativePath::new("src/lib.rs").expect("path should normalize");
    let file_id = FileId::new(graph.repository().id, &file_path);
    let module_id = SymbolId::new(file_id, "module:crate");

    let src = Directory::new(graph.repository().id, Some(root_id), "src").expect("src");
    graph
        .insert_directory(src)
        .expect("src directory should insert");

    let file = File::new(graph.repository().id, src_id, "src/lib.rs").expect("file");
    graph.insert_file(file).expect("file should insert");

    let module = Symbol::new(
        file_id,
        SymbolOwner::File(file_id),
        SymbolKind::Module,
        "crate",
        "module:crate",
    )
    .expect("module");
    graph
        .insert_symbol(module)
        .expect("module symbol should insert");

    let function = Symbol::new(
        file_id,
        SymbolOwner::Symbol(module_id),
        SymbolKind::Function,
        "build_graph",
        "fn:crate::build_graph",
    )
    .expect("function");
    graph
        .insert_symbol(function)
        .expect("function symbol should insert");

    graph
}

#[test]
fn file_ids_are_stable_across_repository_moves() {
    let repository_id = RepositoryId::new("repository");
    let file_path = RelativePath::new("src/lib.rs").expect("path should normalize");

    let left = FileId::new(repository_id, &file_path);
    let right = FileId::new(repository_id, &file_path);

    assert_eq!(left, right);
}

#[test]
fn symbol_ids_change_when_stable_key_changes() {
    let repository_id = RepositoryId::new("repository");
    let file_id = FileId::new(
        repository_id,
        &RelativePath::new("src/lib.rs").expect("path should normalize"),
    );

    let left = SymbolId::new(file_id, "fn:crate::build_graph");
    let right = SymbolId::new(file_id, "fn:crate::scan");

    assert_ne!(left, right);
}

#[test]
fn rejects_directory_parent_mismatch() {
    let mut graph = RepositoryGraph::new(repository());
    let root = Directory::new(graph.repository().id, None, ".").expect("root directory");
    graph
        .insert_directory(root)
        .expect("root directory should insert");

    let nested = Directory::new(graph.repository().id, None, "src").expect("nested directory");
    let error = graph
        .insert_directory(nested)
        .expect_err("nested directory without parent must fail");

    assert_eq!(
        error,
        GraphError::InvalidParent {
            child: "directory",
            expected: ".".to_string(),
            actual: "<none>".to_string(),
        }
    );
}

#[test]
fn rejects_relationship_with_missing_endpoint() {
    let mut graph = RepositoryGraph::new(repository());
    let relationship = Relationship::new(
        EntityId::Symbol(SymbolId::new(
            FileId::new(
                graph.repository().id,
                &RelativePath::new("src/lib.rs").expect("path should normalize"),
            ),
            "fn:source",
        )),
        RelationshipKind::Calls,
        EntityId::Symbol(SymbolId::new(
            FileId::new(
                graph.repository().id,
                &RelativePath::new("src/lib.rs").expect("path should normalize"),
            ),
            "fn:target",
        )),
    );

    let error = graph
        .insert_relationship(relationship)
        .expect_err("missing endpoint should fail");

    assert!(matches!(
        error,
        GraphError::MissingEntity {
            entity: "symbol",
            ..
        }
    ));
}

#[test]
fn rejects_invalid_relationship_endpoint_categories() {
    let mut graph = populated_graph();
    let root_dir = DirectoryId::new(graph.repository().id, &RelativePath::root());
    let symbol_id = graph.symbols().first().expect("symbol should exist").id;

    let error = graph
        .insert_relationship(Relationship::new(
            EntityId::Directory(root_dir),
            RelationshipKind::Calls,
            EntityId::Symbol(symbol_id),
        ))
        .expect_err("directory cannot call a symbol");

    assert_eq!(
        error,
        GraphError::InvalidRelationship {
            kind: "calls",
            source: "directory",
            target: "symbol",
        }
    );
}

#[test]
fn rejects_explicit_structural_relationships() {
    let mut graph = populated_graph();
    let root_id = DirectoryId::new(graph.repository().id, &RelativePath::root());
    let src_id = DirectoryId::new(
        graph.repository().id,
        &RelativePath::new("src").expect("path should normalize"),
    );

    let error = graph
        .insert_relationship(Relationship::new(
            EntityId::Directory(root_id),
            RelationshipKind::Contains,
            EntityId::Directory(src_id),
        ))
        .expect_err("structural edges must be derived");

    assert_eq!(error, GraphError::ManagedRelationship { kind: "contains" });
}

#[test]
fn builds_minimal_graph_with_structural_edges() {
    let graph = populated_graph();

    assert_eq!(graph.directories().len(), 2);
    assert_eq!(graph.files().len(), 1);
    assert_eq!(graph.symbols().len(), 2);
    assert_eq!(graph.relationships().len(), 5);
}
