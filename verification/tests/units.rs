use std::path::PathBuf;

use leshy::{
    crate_scope_key, crate_scope_preference, direct_crate_scope, file_namespace,
    map_plugin_error, module_namespace_from_segments, normalize_git_origin, package_prefix,
    parse_common_dir_reference, parse_git_dir_reference, parse_origin_url,
    path_anchored_crate_scope, preferred_crate_scope, relative_path_depth, repository_identity,
    rust_source_layout, scope_matches_package, stable_hash, start_scan, supports_path,
    walk_entry_step, DirectoryId, EntityId, EntityKind, FileId, GraphError, IndexError,
    LanguageId, LanguagePluginError, ParseError, RelationshipId, RelationshipKind, RelativePath,
    RepositoryId, RepositoryIdentitySource, ScanError, SkippedPathReason, SymbolId,
    WalkEntryKind, WalkStep,
};

fn chars(text: &str) -> Vec<char> {
    text.chars().collect()
}

fn text(chars: &[char]) -> String {
    chars.iter().collect()
}

#[test]
fn stable_hash_is_fnv1a_over_separated_parts() {
    assert_eq!(stable_hash(&[""]), 0xcbf29ce484222325);
    assert_eq!(stable_hash(&["a"]), 0xaf63dc4c8601ec8c);
    assert_eq!(stable_hash(&["foobar"]), 0x85944171f73967e8);
    assert_ne!(stable_hash(&["foo", "bar"]), stable_hash(&["foobar"]));
}

#[test]
fn identifiers_render_as_labelled_hex() {
    let repository = RepositoryId::new("github.com/AdamTMalek/leshy");
    assert_eq!(
        repository.to_string(),
        format!("repo:{:016x}", repository.as_u64())
    );
    let path = RelativePath::new("src/lib.rs").expect("path");
    let file = FileId::new(repository, &path);
    assert_eq!(file.to_string(), format!("file:{:016x}", file.as_u64()));
    let directory = DirectoryId::new(repository, &RelativePath::root());
    assert_eq!(directory.to_string(), format!("dir:{:016x}", directory.as_u64()));
    let symbol = SymbolId::new(file, "fn:main");
    assert_eq!(symbol.to_string(), format!("symbol:{:016x}", symbol.as_u64()));
    assert_eq!(repository.as_u64(), stable_hash(&["repository", "github.com/AdamTMalek/leshy"]));
}

#[test]
fn file_and_directory_ids_differ_for_one_path() {
    let repository = RepositoryId::new("repository");
    let path = RelativePath::new("src").expect("path");
    assert_ne!(
        FileId::new(repository, &path).as_u64(),
        DirectoryId::new(repository, &path).as_u64()
    );
}

#[test]
fn relationship_ids_depend_on_kind_and_endpoints() {
    let repository = RepositoryId::new("repository");
    let root = DirectoryId::new(repository, &RelativePath::root());
    let source = EntityId::Repository(repository);
    let target = EntityId::Directory(root);
    let contains = RelationshipId::new(RelationshipKind::Contains, source, target);
    assert_eq!(contains, RelationshipId::new(RelationshipKind::Contains, source, target));
    assert_ne!(contains, RelationshipId::new(RelationshipKind::References, source, target));
    assert_eq!(contains.to_string(), format!("rel:{:016x}", contains.as_u64()));
    assert_eq!(source.kind(), EntityKind::Repository);
    assert_eq!(target.kind(), EntityKind::Directory);
    assert_eq!(EntityKind::Symbol.as_str(), "symbol");
    assert_eq!(RelationshipKind::Calls.as_str(), "calls");
}

#[test]
fn relative_paths_know_their_parents() {
    let nested = RelativePath::new("src/service/cache.rs").expect("path");
    let parent = nested.parent().expect("parent");
    assert_eq!(parent.as_str(), "src/service");
    let top = RelativePath::new("Cargo.toml").expect("path").parent().expect("parent");
    assert!(top.is_root());
    assert_eq!(top.to_string(), ".");
    assert!(RelativePath::root().parent().is_none());
    assert_eq!(RelativePath::new("a//b/./c/").expect("path").as_str(), "a/b/c");
}

#[test]
fn relative_path_depth_counts_segments() {
    assert_eq!(relative_path_depth(""), 0);
    assert_eq!(relative_path_depth("src"), 1);
    assert_eq!(relative_path_depth("src/bin/tool.rs"), 3);
}

#[test]
fn normalization_is_idempotent_except_for_hidden_drive_prefixes() {
    let once = RelativePath::new(".\\src\\\\lib.rs").expect("path");
    let twice = RelativePath::new(once.as_str()).expect("path");
    assert_eq!(once, twice);

    let hidden = RelativePath::new("./C:/data").expect("a `.` segment hides the drive");
    assert_eq!(hidden.as_str(), "C:/data");
    assert!(RelativePath::new(hidden.as_str()).is_err());
}

#[test]
fn rust_layout_gives_package_prefix_and_namespace() {
    let nested = RelativePath::new("crates/core/src/service/mod.rs").expect("path");
    let layout = rust_source_layout(&nested);
    assert_eq!(layout.package_prefix, "crates/core");
    assert_eq!(layout.namespace, vec!["service".to_string()]);
    assert_eq!(package_prefix(&nested), "crates/core");
    assert_eq!(file_namespace(&nested), vec!["service".to_string()]);

    let binary = RelativePath::new("src/bin/tool/helper/util.rs").expect("path");
    assert_eq!(file_namespace(&binary), vec!["helper".to_string(), "util".to_string()]);
    let test = RelativePath::new("tests/sample/common.rs").expect("path");
    assert_eq!(file_namespace(&test), vec!["common".to_string()]);
    assert_eq!(file_namespace(&RelativePath::new("build.rs").expect("path")), Vec::<String>::new());
}

#[test]
fn crate_scopes_follow_the_cargo_layout() {
    let scope = |path: &str| direct_crate_scope(&RelativePath::new(path).expect("path"));
    assert_eq!(scope("src/lib.rs").as_deref(), Some("#lib"));
    assert_eq!(scope("crates/a/src/main.rs").as_deref(), Some("crates/a#main"));
    assert_eq!(scope("src/bin/tool.rs").as_deref(), Some("#bin/tool"));
    assert_eq!(scope("src/bin/tool/main.rs").as_deref(), Some("#bin/tool"));
    assert_eq!(scope("crates/a/build.rs").as_deref(), Some("crates/a#build"));
    assert_eq!(scope("tests/sample.rs").as_deref(), Some("#tests/sample"));
    assert_eq!(scope("src/model.rs"), None);

    let anchored = |path: &str| path_anchored_crate_scope(&RelativePath::new(path).expect("path"));
    assert_eq!(anchored("src/bin/tool/helper.rs").as_deref(), Some("#bin/tool"));
    assert_eq!(anchored("benches/bench/util.rs").as_deref(), Some("#benches/bench"));
    assert_eq!(anchored("src/model.rs"), None);
}

#[test]
fn crate_scope_keys_and_preferences() {
    assert_eq!(text(&crate_scope_key(&chars(""), &chars("lib"))), "#lib");
    assert_eq!(text(&crate_scope_key(&chars("crates/a"), &chars("main"))), "crates/a#main");
    assert_eq!(crate_scope_preference("crates/a#lib"), (0, "lib".to_string()));
    assert_eq!(crate_scope_preference("#main"), (1, "main".to_string()));
    assert_eq!(crate_scope_preference("#build"), (2, "build".to_string()));
    assert_eq!(crate_scope_preference("#bin/tool"), (3, "bin/tool".to_string()));
    assert_eq!(
        preferred_crate_scope(vec!["#bin/b".to_string(), "#main".to_string(), "#lib".to_string()]),
        Some("#lib".to_string())
    );
    assert_eq!(
        preferred_crate_scope(vec!["#bin/b".to_string(), "#bin/a".to_string()]),
        Some("#bin/a".to_string())
    );
    assert_eq!(preferred_crate_scope(Vec::new()), None);
    assert!(scope_matches_package("crates/a#lib", "crates/a"));
    assert!(!scope_matches_package("crates/a#lib", "crates/b"));
    assert!(scope_matches_package("#lib", ""));
}

#[test]
fn module_namespaces_drop_crate_and_module_roots() {
    let segments = |parts: &[&str]| parts.iter().map(|p| chars(p)).collect::<Vec<_>>();
    let names = |ns: Vec<Vec<char>>| ns.iter().map(|s| text(s)).collect::<Vec<_>>();
    assert_eq!(names(module_namespace_from_segments(&segments(&["lib.rs"]))), Vec::<String>::new());
    assert_eq!(names(module_namespace_from_segments(&segments(&["foo", "mod.rs"]))), vec!["foo"]);
    assert_eq!(
        names(module_namespace_from_segments(&segments(&["foo", "bar.rs"]))),
        vec!["foo", "bar"]
    );
    assert_eq!(names(module_namespace_from_segments(&segments(&[]))), Vec::<String>::new());
}

#[test]
fn rust_paths_are_recognized_by_extension() {
    assert!(supports_path("src/lib.rs"));
    assert!(supports_path("a.b/c.rs"));
    assert!(!supports_path("README.md"));
    assert!(!supports_path(".rs"));
    assert!(!supports_path("src/rs"));
}

#[test]
fn git_origins_are_read_from_the_origin_section() {
    let config = "[core]\n\turl = https://example.com/other.git\n[remote \"upstream\"]\n\turl = git@github.com:up/stream.git\n[remote \"origin\"]\n\t# comment\n\turl = https://github.com/AdamTMalek/leshy.git\n";
    assert_eq!(
        parse_origin_url(config).as_deref(),
        Some("https://github.com/AdamTMalek/leshy.git")
    );
    assert_eq!(parse_origin_url("[remote \"origin\"]\n\tfetch = +refs\n"), None);
    assert_eq!(parse_origin_url("[remote \"origin\"]\nurl =\n"), None);
    assert_eq!(parse_origin_url("[remote \"origin\"]\nbroken line\nurl = x\n"), None);
}

#[test]
fn git_indirection_files_name_the_git_directory() {
    assert_eq!(
        parse_git_dir_reference("gitdir: ../.git/worktrees/main\nother\n").as_deref(),
        Some("../.git/worktrees/main")
    );
    assert_eq!(parse_git_dir_reference("gitdir:   \n"), None);
    assert_eq!(parse_git_dir_reference("nothing here\n"), None);
    assert_eq!(parse_common_dir_reference("  ../..  \n").as_deref(), Some("../.."));
    assert_eq!(parse_common_dir_reference("\n"), None);
    assert_eq!(parse_common_dir_reference(""), None);
}

#[test]
fn git_origin_spellings_normalize_to_one_identity() {
    for origin in [
        "https://github.com/AdamTMalek/leshy.git",
        "http://GitHub.com/AdamTMalek/leshy/",
        "git@github.com:AdamTMalek/leshy.git",
        "ssh://git@github.com/AdamTMalek/leshy.git",
        "  https://user@github.com/AdamTMalek/leshy.git  ",
    ] {
        assert_eq!(normalize_git_origin(origin), "github.com/AdamTMalek/leshy", "{origin}");
    }
    assert_eq!(normalize_git_origin("/srv/git/project.git"), "/srv/git/project");
    assert_eq!(normalize_git_origin("file:///srv/repo"), "file:///srv/repo");
}

#[test]
fn repository_identity_prefers_the_git_origin() {
    assert_eq!(
        repository_identity(Some("git@github.com:a/b.git"), "/work/b"),
        ("github.com/a/b".to_string(), RepositoryIdentitySource::GitOrigin)
    );
    assert_eq!(
        repository_identity(None, "/work/b"),
        ("/work/b".to_string(), RepositoryIdentitySource::PathFallback)
    );
}

#[test]
fn scans_refuse_blank_repository_metadata() {
    let blank_key = start_scan(RepositoryIdentitySource::PathFallback, "  ", "repo", PathBuf::from("/r"))
        .expect_err("a blank key is refused");
    assert!(matches!(
        blank_key,
        ScanError::RepositoryMetadata { source: GraphError::EmptyStableKey { entity: "repository" } }
    ));
    assert_eq!(
        blank_key.to_string(),
        "failed to build repository metadata: repository stable key must not be empty"
    );
    let blank_name = start_scan(RepositoryIdentitySource::PathFallback, "key", "", PathBuf::from("/r"))
        .expect_err("a blank name is refused");
    assert!(matches!(
        blank_name,
        ScanError::RepositoryMetadata { source: GraphError::EmptyName { entity: "repository" } }
    ));
}

#[test]
fn walk_steps_skip_links_git_directories_odd_entries_and_bad_paths() {
    let scan = start_scan(RepositoryIdentitySource::PathFallback, "key", "repo", PathBuf::from("/r"))
        .expect("scan");
    let repository = scan.repository.id;
    let root = scan.directories[0].id;
    let step = |kind, name: &str, path: &str| {
        walk_entry_step(repository, root, kind, name, path).expect("step")
    };
    assert!(matches!(
        step(WalkEntryKind::Symlink, "link", "link"),
        WalkStep::Skip(SkippedPathReason::Symlink)
    ));
    assert!(matches!(
        step(WalkEntryKind::Directory, ".git", ".git"),
        WalkStep::Skip(SkippedPathReason::IgnoredGitDirectory)
    ));
    assert!(matches!(
        step(WalkEntryKind::File, ".git", ".git"),
        WalkStep::Record(_)
    ));
    assert!(matches!(
        step(WalkEntryKind::Other, "fifo", "fifo"),
        WalkStep::Skip(SkippedPathReason::UnsupportedFileType)
    ));
    assert!(matches!(
        step(WalkEntryKind::File, "x", "../x"),
        WalkStep::Skip(SkippedPathReason::InvalidRelativePath)
    ));
    match step(WalkEntryKind::Directory, "src", "src") {
        WalkStep::Descend(directory) => {
            assert_eq!(directory.parent_id, Some(root));
            assert_eq!(directory.relative_path.as_str(), "src");
        }
        _ => panic!("directories are descended into"),
    }
}

#[test]
fn scan_errors_render_their_paths() {
    let error = ScanError::RootNotDirectory { path: PathBuf::from("/tmp/file.txt") };
    assert_eq!(error.to_string(), "repository root `/tmp/file.txt` is not a directory");
    let outside = ScanError::PathOutsideRoot {
        path: PathBuf::from("/a/b"),
        root: PathBuf::from("/c"),
    };
    assert_eq!(outside.to_string(), "scanned path `/a/b` is outside repository root `/c`");
    let read = ScanError::ReadPath {
        action: "canonicalize repository root",
        path: PathBuf::from("/gone"),
        source: std::io::Error::new(std::io::ErrorKind::NotFound, "gone"),
    };
    assert_eq!(read.to_string(), "failed to canonicalize repository root `/gone`");
}

#[test]
fn plugin_failures_become_parse_errors_for_the_file() {
    let path = RelativePath::new("src/lib.rs").expect("path");
    let error = map_plugin_error(LanguagePluginError::ParseReturnedNone, path, LanguageId::new("rust"));
    assert!(matches!(
        error,
        ParseError::ParseReturnedNone { ref path, language }
            if path.as_str() == "src/lib.rs" && language == LanguageId::new("rust")
    ));
    assert_eq!(error.to_string(), "rust parser did not return a syntax tree for `src/lib.rs`");
    let syntax = ParseError::SyntaxErrors {
        path: RelativePath::root(),
        language: LanguageId::new("rust"),
    };
    assert_eq!(syntax.to_string(), "rust parser reported syntax errors in `.`");
}

#[test]
fn index_errors_name_what_failed() {
    let directory = DirectoryId::new(RepositoryId::new("r"), &RelativePath::root());
    let error = IndexError::InsertDirectory {
        directory_id: directory,
        source: GraphError::RepositoryMismatch { entity: "directory" },
    };
    assert_eq!(
        error.to_string(),
        format!(
            "failed to populate directory `{}`: directory belongs to a different repository",
            directory.to_string()
        )
    );
    let parse = IndexError::Parse {
        source: ParseError::SyntaxErrors {
            path: RelativePath::new("src/lib.rs").expect("path"),
            language: LanguageId::new("rust"),
        },
    };
    assert_eq!(
        parse.to_string(),
        "failed to parse repository: rust parser reported syntax errors in `src/lib.rs`"
    );
}

#[test]
fn namespace_ignores_workspace_prefix_and_module_file_form() {
    let namespace = |path: &str| {
        rust_source_layout(&RelativePath::new(path).expect("path should normalize")).namespace
    };
    let expected = vec!["graph".to_string(), "edges".to_string()];
    assert_eq!(namespace("src/graph/edges.rs"), expected);
    assert_eq!(namespace("crates/core/src/graph/edges.rs"), expected);
    assert_eq!(namespace("crates/core/src/graph/edges/mod.rs"), expected);
    assert_eq!(namespace("src/graph/edges/mod.rs"), expected);
}

#[test]
fn distinct_crates_get_distinct_scope_keys() {
    let key = |prefix: &str, target: &str| text(&crate_scope_key(&chars(prefix), &chars(target)));
    assert_ne!(key("crates/a", "lib"), key("crates/b", "lib"));
    assert_ne!(key("crates/a", "lib"), key("crates/a", "main"));
    assert_ne!(key("", "lib"), key("crates/a", "lib"));
    assert_eq!(key("crates/a", "bin/tool"), "crates/a#bin/tool");
}

#[test]
fn build_and_test_files_under_src_are_modules() {
    let scope = |path: &str| direct_crate_scope(&RelativePath::new(path).expect("path"));
    let namespace = |path: &str| {
        rust_source_layout(&RelativePath::new(path).expect("path should normalize")).namespace
    };
    assert_eq!(scope("build.rs").as_deref(), Some("#build"));
    assert_eq!(scope("src/build.rs"), None);
    assert_eq!(namespace("src/build.rs"), vec!["build".to_string()]);
    assert_eq!(scope("crates/a/src/tests/mod.rs"), None);
    assert_eq!(namespace("src/tests/mod.rs"), vec!["tests".to_string()]);
    assert_eq!(namespace("src/examples/demo.rs"), vec!["examples".to_string(), "demo".to_string()]);
    assert_eq!(scope("crates/a/tests/sample.rs").as_deref(), Some("crates/a#tests/sample"));
}

#[test]
fn language_id_displays_its_text() {
    let id = LanguageId::new("rust");
    assert_eq!(id.as_str(), "rust");
    assert_eq!(id.to_string(), "rust");
    assert_eq!(LanguageId::new("rust"), LanguageId::new("rust"));
    assert_ne!(LanguageId::new("rust"), LanguageId::new("rust-test"));
}
