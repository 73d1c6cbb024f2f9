use leshy::RelativePath;

#[test]
fn normalizes_current_directory_to_root() {
    let path = RelativePath::new(".").expect("current directory should normalize");
    assert!(path.is_root());
    assert_eq!(path.to_string(), ".");
}

#[test]
fn normalizes_redundant_separators() {
    let path = RelativePath::new("src//graph/./mod.rs").expect("path should normalize");
    assert_eq!(path.as_str(), "src/graph/mod.rs");
}

#[test]
fn normalizes_backslashes_to_forward_slashes() {
    let path = RelativePath::new(r"src\graph\mod.rs").expect("path should normalize");
    assert_eq!(path.as_str(), "src/graph/mod.rs");
}

#[test]
fn rejects_parent_traversal() {
    let error = RelativePath::new("../Cargo.toml").expect_err("parent traversal must fail");
    assert!(
        error
            .to_string()
            .contains("path must not escape the repository root")
    );
}

#[test]
fn rejects_windows_absolute_paths() {
    let error = RelativePath::new(r"C:\repo\src\lib.rs").expect_err("absolute path must fail");
    assert!(
        error
            .to_string()
            .contains("path must be relative to the repository root")
    );
}

#[test]
fn separator_style_does_not_change_the_path() {
    let forward = RelativePath::new("crates/core/src/lib.rs").expect("path should normalize");
    let backward = RelativePath::new(r"crates\core\src\lib.rs").expect("path should normalize");
    assert_eq!(forward, backward);
    assert!(RelativePath::new(r"..\outside").is_err());
    assert!(RelativePath::new("../outside").is_err());
}
