use leshy::parse_use_declaration;

fn pairs(items: &[(&str, &str)]) -> Vec<(String, String)> {
    items
        .iter()
        .map(|(alias, target)| (alias.to_string(), target.to_string()))
        .collect()
}

#[test]
fn strips_visibility_from_use_declarations() {
    assert_eq!(
        parse_use_declaration("pub use crate::model::Record;", &[]),
        vec![("Record".to_string(), "model::Record".to_string())]
    );
    assert_eq!(
        parse_use_declaration("pub(crate) use crate::model::Record;", &[]),
        vec![("Record".to_string(), "model::Record".to_string())]
    );
}

#[test]
fn canonicalizes_grouped_self_import_aliases() {
    assert_eq!(
        parse_use_declaration("use crate::outer::{self as outer_mod, Widget};", &[]),
        vec![
            ("outer_mod".to_string(), "outer".to_string()),
            ("Widget".to_string(), "outer::Widget".to_string()),
        ]
    );
}

#[test]
fn resolves_self_and_super_against_the_namespace() {
    let namespace = vec!["outer".to_string(), "inner".to_string()];
    assert_eq!(
        parse_use_declaration("use super::model::Record;", &namespace),
        pairs(&[("Record", "outer::model::Record")])
    );
    assert_eq!(
        parse_use_declaration("use self::Widget as W;", &namespace),
        pairs(&[("W", "outer::inner::Widget")])
    );
}

#[test]
fn keeps_external_paths_and_expands_nested_groups() {
    assert_eq!(
        parse_use_declaration("use std::{fmt::{self, Display}, io};", &[]),
        pairs(&[
            ("fmt", "std::fmt"),
            ("Display", "std::fmt::Display"),
            ("io", "std::io"),
        ])
    );
}

#[test]
fn keeps_super_paths_above_the_crate_root_as_written() {
    assert_eq!(
        parse_use_declaration("pub(in crate::a) use super::Thing;", &[]),
        pairs(&[("Thing", "super::Thing")])
    );
    assert_eq!(parse_use_declaration("use ;", &[]), pairs(&[]));
}

#[test]
fn alias_changes_only_the_bound_name() {
    let namespace = vec!["service".to_string()];
    let plain = parse_use_declaration("use super::model::Record;", &namespace);
    let aliased = parse_use_declaration("use super::model::Record as Row;", &namespace);
    assert_eq!(plain, pairs(&[("Record", "model::Record")]));
    assert_eq!(aliased, pairs(&[("Row", "model::Record")]));
}

#[test]
fn group_brings_in_what_separate_paths_bring_in() {
    let namespace = vec!["service".to_string()];
    let grouped = parse_use_declaration("use super::model::{Record, Store};", &namespace);
    let mut separate = parse_use_declaration("use super::model::Record;", &namespace);
    separate.extend(parse_use_declaration("use super::model::Store;", &namespace));
    assert_eq!(grouped, separate);
    assert_eq!(
        grouped,
        pairs(&[("Record", "model::Record"), ("Store", "model::Store")])
    );
}

#[test]
fn equivalent_local_spellings_share_one_target() {
    let outer = vec!["outer".to_string()];
    let inner = vec!["outer".to_string(), "inner".to_string()];
    let expected = pairs(&[("Widget", "outer::Widget")]);
    assert_eq!(parse_use_declaration("use self::Widget;", &outer), expected);
    assert_eq!(parse_use_declaration("use crate::outer::Widget;", &outer), expected);
    assert_eq!(parse_use_declaration("use super::Widget;", &inner), expected);
}
