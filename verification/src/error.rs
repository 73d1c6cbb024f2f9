//! Errors returned by the core repository graph model.

use vstd::prelude::*;
use vstd::string::*;

verus! {

/// Errors returned by the core repository graph model.
#[derive(Debug, Clone, PartialEq, Eq)]
pub enum GraphError {
    EmptyStableKey { entity: &'static str },
    EmptyName { entity: &'static str },
    InvalidRelativePath { path: String, reason: &'static str },
    DuplicateEntity { entity: &'static str, id: String },
    MissingEntity { entity: &'static str, id: String },
    RepositoryMismatch { entity: &'static str },
    ManagedRelationship { kind: &'static str },
    InvalidParent { child: &'static str, expected: String, actual: String },
    InvalidRelationship { kind: &'static str, source: &'static str, target: &'static str },
}

/// A graph error with every text field taken as a character sequence.
pub enum GraphErrorView {
    EmptyStableKey { entity: Seq<char> },
    EmptyName { entity: Seq<char> },
    InvalidRelativePath { path: Seq<char>, reason: Seq<char> },
    DuplicateEntity { entity: Seq<char>, id: Seq<char> },
    MissingEntity { entity: Seq<char>, id: Seq<char> },
    RepositoryMismatch { entity: Seq<char> },
    ManagedRelationship { kind: Seq<char> },
    InvalidParent { child: Seq<char>, expected: Seq<char>, actual: Seq<char> },
    InvalidRelationship { kind: Seq<char>, source: Seq<char>, target: Seq<char> },
}

impl View for GraphError {
    type V = GraphErrorView;

    open spec fn view(&self) -> GraphErrorView {
        match *self {
            GraphError::EmptyStableKey { entity } => GraphErrorView::EmptyStableKey {
                entity: entity@,
            },
            GraphError::EmptyName { entity } => GraphErrorView::EmptyName { entity: entity@ },
            GraphError::InvalidRelativePath { path, reason } => GraphErrorView::InvalidRelativePath {
                path: path@,
                reason: reason@,
            },
            GraphError::DuplicateEntity { entity, id } => GraphErrorView::DuplicateEntity {
                entity: entity@,
                id: id@,
            },
            GraphError::MissingEntity { entity, id } => GraphErrorView::MissingEntity {
                entity: entity@,
                id: id@,
            },
            GraphError::RepositoryMismatch { entity } => GraphErrorView::RepositoryMismatch {
                entity: entity@,
            },
            GraphError::ManagedRelationship { kind } => GraphErrorView::ManagedRelationship {
                kind: kind@,
            },
            GraphError::InvalidParent { child, expected, actual } => GraphErrorView::InvalidParent {
                child: child@,
                expected: expected@,
                actual: actual@,
            },
            GraphError::InvalidRelationship { kind, source, target } =>
                GraphErrorView::InvalidRelationship {
                kind: kind@,
                source: source@,
                target: target@,
            },
        }
    }
}

/// The human-readable message of an error.
pub open spec fn graph_error_message(e: GraphErrorView) -> Seq<char> {
    match e {
        GraphErrorView::EmptyStableKey { entity } => entity + " stable key must not be empty"@,
        GraphErrorView::EmptyName { entity } => entity + " name must not be empty"@,
        GraphErrorView::InvalidRelativePath { path, reason } => "invalid relative path `"@ + path
            + "`: "@ + reason,
        GraphErrorView::DuplicateEntity { entity, id } => "duplicate "@ + entity + " with id `"@
            + id + "`"@,
        GraphErrorView::MissingEntity { entity, id } => "missing "@ + entity + " with id `"@ + id
            + "`"@,
        GraphErrorView::RepositoryMismatch { entity } => entity
            + " belongs to a different repository"@,
        GraphErrorView::ManagedRelationship { kind } => "`"@ + kind
            + "` relationships are derived from graph structure"@,
        GraphErrorView::InvalidParent { child, expected, actual } => "invalid parent for "@
            + child + ": expected `"@ + expected + "`, found `"@ + actual + "`"@,
        GraphErrorView::InvalidRelationship { kind, source, target } => "invalid `"@ + kind
            + "` relationship between `"@ + source + "` and `"@ + target + "`"@,
    }
}

impl GraphError {
    /// Renders the error as a human-readable message.
    pub fn to_string(&self) -> (s: String)
        ensures
            s@ == graph_error_message(self@),
    {
        let mut s = String::new();
        match self {
            GraphError::EmptyStableKey { entity } => {
                s.append(entity);
                s.append(" stable key must not be empty");
            },
            GraphError::EmptyName { entity } => {
                s.append(entity);
                s.append(" name must not be empty");
            },
            GraphError::InvalidRelativePath { path, reason } => {
                s.append("invalid relative path `");
                s.append(path.as_str());
                s.append("`: ");
                s.append(reason);
            },
            GraphError::DuplicateEntity { entity, id } => {
                s.append("duplicate ");
                s.append(entity);
                s.append(" with id `");
                s.append(id.as_str());
                s.append("`");
            },
            GraphError::MissingEntity { entity, id } => {
                s.append("missing ");
                s.append(entity);
                s.append(" with id `");
                s.append(id.as_str());
                s.append("`");
            },
            GraphError::RepositoryMismatch { entity } => {
                s.append(entity);
                s.append(" belongs to a different repository");
            },
            GraphError::ManagedRelationship { kind } => {
                s.append("`");
                s.append(kind);
                s.append("` relationships are derived from graph structure");
            },
            GraphError::InvalidParent { child, expected, actual } => {
                s.append("invalid parent for ");
                s.append(child);
                s.append(": expected `");
                s.append(expected.as_str());
                s.append("`, found `");
                s.append(actual.as_str());
                s.append("`");
            },
            GraphError::InvalidRelationship { kind, source, target } => {
                s.append("invalid `");
                s.append(kind);
                s.append("` relationship between `");
                s.append(source);
                s.append("` and `");
                s.append(target);
                s.append("`");
            },
        }
        assert(s@ =~= graph_error_message(self@));
        s
    }
}

} // verus!
