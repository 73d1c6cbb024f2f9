use leshy::{
    directory_rules, glob_matches, is_ignored, parse_ignore_rules, rule_matches, walk_step_kept,
    Directory, File, IgnoreRule, RepositoryId, SkippedPathReason, WalkStep,
};

fn rule(base: &str, pattern: &str, negated: bool, directory_only: bool, anchored: bool) -> IgnoreRule {
    IgnoreRule {
        base: base.to_string(),
        pattern: pattern.to_string(),
        negated,
        directory_only,
        anchored,
    }
}

#[test]
fn glob_star_stays_within_one_component() {
    assert!(glob_matches("*.rs", "lib.rs"));
    assert!(glob_matches("*", ""));
    assert!(!glob_matches("*.rs", "src/lib.rs"));
    assert!(!glob_matches("*.rs", "lib.rsx"));
}

#[test]
fn glob_question_mark_matches_one_character() {
    assert!(glob_matches("a?c", "abc"));
    assert!(!glob_matches("a?c", "ac"));
    assert!(!glob_matches("a?c", "a/c"));
}

#[test]
fn glob_double_star_crosses_directories() {
    assert!(glob_matches("**/foo", "foo"));
    assert!(glob_matches("**/foo", "a/b/foo"));
    assert!(glob_matches("abc/**", "abc/x/y"));
    assert!(glob_matches("a/**/b", "a/b"));
    assert!(glob_matches("a/**/b", "a/x/y/b"));
    assert!(!glob_matches("a/**/b", "a/x/c"));
}

#[test]
fn glob_backslash_escapes_the_next_character() {
    assert!(glob_matches("\\*", "*"));
    assert!(!glob_matches("\\*", "x"));
    assert!(glob_matches("\\#file", "#file"));
}

#[test]
fn parse_skips_blank_lines_and_comments() {
    let rules = parse_ignore_rules("# comment\n\n   \ntarget/\n", "");
    assert_eq!(rules, vec![rule("", "target", false, true, false)]);
}

#[test]
fn parse_reads_negation_anchoring_and_base() {
    let rules = parse_ignore_rules("!keep.log\n/build\ndocs/*.md\r\n", "sub");
    assert_eq!(
        rules,
        vec![
            rule("sub", "keep.log", true, false, false),
            rule("sub", "build", false, false, true),
            rule("sub", "docs/*.md", false, false, true),
        ]
    );
}

#[test]
fn parse_drops_trailing_spaces_unless_escaped() {
    let rules = parse_ignore_rules("a.txt   \nb\\ \n", "");
    assert_eq!(
        rules,
        vec![rule("", "a.txt", false, false, false), rule("", "b\\ ", false, false, false)]
    );
    assert!(rule_matches(&rules[1], "b ", false));
}

#[test]
fn parse_ignores_lines_with_no_pattern() {
    assert!(parse_ignore_rules("/\n!\n!/\n", "").is_empty());
}

#[test]
fn unanchored_rule_matches_last_component_anywhere_below_base() {
    let r = rule("", "*.log", false, false, false);
    assert!(rule_matches(&r, "debug.log", false));
    assert!(rule_matches(&r, "a/b/debug.log", false));
    assert!(!rule_matches(&r, "a/debug.txt", false));
}

#[test]
fn anchored_rule_matches_from_its_base() {
    let r = rule("sub", "build", false, false, true);
    assert!(rule_matches(&r, "sub/build", true));
    assert!(!rule_matches(&r, "sub/x/build", true));
    assert!(!rule_matches(&r, "build", true));
    assert!(!rule_matches(&r, "subx/build", true));
}

#[test]
fn directory_only_rule_skips_files() {
    let r = rule("", "target", false, true, false);
    assert!(rule_matches(&r, "target", true));
    assert!(!rule_matches(&r, "target", false));
}

#[test]
fn gitignore_of_target_directory_keeps_sources() {
    let rules = parse_ignore_rules("target/\n", "");
    assert!(is_ignored(&rules, "target", true));
    assert!(!is_ignored(&rules, "src", true));
    assert!(!is_ignored(&rules, "src/lib.rs", false));
    assert!(!is_ignored(&rules, ".gitignore", false));
}

#[test]
fn last_matching_rule_decides() {
    let rules = parse_ignore_rules("*.log\n!keep.log\n", "");
    assert!(is_ignored(&rules, "debug.log", false));
    assert!(!is_ignored(&rules, "keep.log", false));
    let reversed = parse_ignore_rules("!keep.log\n*.log\n", "");
    assert!(is_ignored(&reversed, "keep.log", false));
}

#[test]
fn negated_line_reincludes_what_the_plain_line_ignores() {
    let rules = parse_ignore_rules("build/\n!build/\n", "");
    assert!(!is_ignored(&rules, "build", true));
    let plain = parse_ignore_rules("build/\n", "");
    assert!(is_ignored(&plain, "build", true));
}

#[test]
fn rules_of_a_nested_file_stay_below_its_directory() {
    let mut rules = parse_ignore_rules("", "");
    rules.extend(parse_ignore_rules("*.tmp\n", "sub"));
    assert!(is_ignored(&rules, "sub/a.tmp", false));
    assert!(is_ignored(&rules, "sub/deep/a.tmp", false));
    assert!(!is_ignored(&rules, "a.tmp", false));
    assert!(!is_ignored(&rules, "other/a.tmp", false));
}

#[test]
fn no_rules_ignore_nothing() {
    assert!(!is_ignored(&Vec::new(), "anything", false));
}

#[test]
fn directory_rules_extend_the_inherited_rules() {
    let inherited = parse_ignore_rules("*.log\n", "");
    let rules = directory_rules(&inherited, Some("!keep.log\ntarget/\n"), "sub");
    assert_eq!(
        rules,
        vec![
            rule("", "*.log", false, false, false),
            rule("sub", "keep.log", true, false, false),
            rule("sub", "target", false, true, false),
        ]
    );
    assert_eq!(directory_rules(&inherited, None, "other"), inherited);
    assert!(!is_ignored(&rules, "sub/keep.log", false));
    assert!(is_ignored(&rules, "other/keep.log", false));
}

#[test]
fn walk_keeps_only_what_the_rules_do_not_ignore() {
    let repository = RepositoryId::new("repository");
    let root = Directory::new(repository, None, ".").expect("root");
    let target = Directory::new(repository, Some(root.id), "target").expect("directory");
    let source = File::new(repository, root.id, "lib.rs").expect("file");
    let rules = parse_ignore_rules("target/\n", "");
    assert!(!walk_step_kept(Some(&rules), &WalkStep::Descend(target)));
    assert!(walk_step_kept(Some(&rules), &WalkStep::Record(source)));
    let target = Directory::new(repository, Some(root.id), "target").expect("directory");
    assert!(walk_step_kept(None, &WalkStep::Descend(target)));
    assert!(walk_step_kept(Some(&rules), &WalkStep::Skip(SkippedPathReason::Symlink)));
}
