//! The decisions of a repository scan: identity, how each filesystem entry is recorded,
//! and the deterministic order of the result. Reading the filesystem is left to callers.

use std::path::PathBuf;

use vstd::multiset::Multiset;
use vstd::prelude::*;
use vstd::string::*;

use crate::error::{GraphError, GraphErrorView};
use crate::graph::{Directory, File, Repository};
use crate::ids::{DirectoryId, RepositoryId};
use crate::origin::{git_origin_identity, normalize_git_origin};
use crate::path::{last_slash, parent_text, relative_path_result, RelativePath};
use crate::text::{chars_of, split_chars, split_on};

verus! {

/// The error type of std I/O, carried through as an opaque value.
#[verifier::external_type_specification]
#[verifier::external_body]
pub struct ExIoError(std::io::Error);

/// A deterministic repository scan result that can be consumed by the indexing pipeline.
#[derive(Clone, Debug, PartialEq, Eq)]
pub struct RepositoryScan {
    pub identity_source: RepositoryIdentitySource,
    pub repository: Repository,
    pub directories: Vec<Directory>,
    pub files: Vec<File>,
    pub skipped: Vec<SkippedPath>,
}

/// The source used to derive repository identity for stable IDs.
#[derive(Clone, Copy, Debug, PartialEq, Eq, Structural)]
pub enum RepositoryIdentitySource {
    GitOrigin,
    PathFallback,
}

/// A skipped filesystem entry recorded during repository scanning.
#[derive(Clone, Debug, PartialEq, Eq)]
pub struct SkippedPath {
    pub path: PathBuf,
    pub reason: SkippedPathReason,
}

/// The reason a path was skipped during repository scanning.
#[derive(Clone, Copy, Debug, PartialEq, Eq, Structural)]
pub enum SkippedPathReason {
    IgnoredGitDirectory,
    Symlink,
    UnsupportedFileType,
    InvalidRelativePath,
}

/// Errors returned by repository scanning.
#[derive(Debug)]
pub enum ScanError {
    ReadPath { action: &'static str, path: PathBuf, source: std::io::Error },
    RootNotDirectory { path: PathBuf },
    RepositoryMetadata { source: GraphError },
    PathOutsideRoot { path: PathBuf, root: PathBuf },
}

/// `Path::display` of a path, rendered to a string; nothing is stated of the text.
#[verifier::external_body]
fn path_display(path: &PathBuf) -> String {
    path.display().to_string()
}

/// The message of a scan error, given the display texts `d1` and `d2` of the paths it
/// names.
pub open spec fn scan_error_message(e: &ScanError, d1: Seq<char>, d2: Seq<char>) -> Seq<char> {
    match e {
        ScanError::ReadPath { action, .. } => "failed to "@ + action@ + " `"@ + d1 + "`"@,
        ScanError::RootNotDirectory { .. } => "repository root `"@ + d1 + "` is not a directory"@,
        ScanError::RepositoryMetadata { source } => "failed to build repository metadata: "@
            + crate::error::graph_error_message(source@),
        ScanError::PathOutsideRoot { .. } => "scanned path `"@ + d1
            + "` is outside repository root `"@ + d2 + "`"@,
    }
}

impl ScanError {
    /// Renders the error as a human-readable message.
    pub fn to_string(&self) -> (s: String)
        ensures
            exists|d1: Seq<char>, d2: Seq<char>| s@ == scan_error_message(self, d1, d2),
    {
        let mut s = String::new();
        match self {
            ScanError::ReadPath { action, path, .. } => {
                let d = path_display(path);
                s.append("failed to ");
                s.append(action);
                s.append(" `");
                s.append(d.as_str());
                s.append("`");
                assert(s@ =~= scan_error_message(self, d@, Seq::empty()));
            },
            ScanError::RootNotDirectory { path } => {
                let d = path_display(path);
                s.append("repository root `");
                s.append(d.as_str());
                s.append("` is not a directory");
                assert(s@ =~= scan_error_message(self, d@, Seq::empty()));
            },
            ScanError::RepositoryMetadata { source } => {
                let m = source.to_string();
                s.append("failed to build repository metadata: ");
                s.append(m.as_str());
                assert(s@ =~= scan_error_message(self, Seq::empty(), Seq::empty()));
            },
            ScanError::PathOutsideRoot { path, root } => {
                let d1 = path_display(path);
                let d2 = path_display(root);
                s.append("scanned path `");
                s.append(d1.as_str());
                s.append("` is outside repository root `");
                s.append(d2.as_str());
                s.append("`");
                assert(s@ =~= scan_error_message(self, d1@, d2@));
            },
        }
        s
    }
}

/// The identity of a repository: the normalized origin URL when git names one, else
/// the text of the root path.
pub open spec fn identity_spec(origin: Option<Seq<char>>, root_text: Seq<char>) -> (
    Seq<char>,
    RepositoryIdentitySource,
) {
    match origin {
        Some(url) => (git_origin_identity(url), RepositoryIdentitySource::GitOrigin),
        None => (root_text, RepositoryIdentitySource::PathFallback),
    }
}

/// A repository identified by its git origin keeps its identity wherever it lies; one
/// identified by its path has the path as its identity.
pub proof fn lemma_origin_identity_ignores_root(url: Seq<char>, root: Seq<char>, moved: Seq<char>)
    ensures
        identity_spec(Some(url), root) == identity_spec(Some(url), moved),
        identity_spec(None, root).0 == root,
        identity_spec(None, moved).0 == moved,
{
}

/// Chooses the stable key of a repository and where it came from.
pub fn repository_identity(origin: Option<&str>, root_text: &str) -> (r: (
    String,
    RepositoryIdentitySource,
))
    ensures
        (r.0@, r.1) == identity_spec(
            match origin {
                Some(url) => Some(url@),
                None => None,
            },
            root_text@,
        ),
{
    match origin {
        Some(url) => (normalize_git_origin(url), RepositoryIdentitySource::GitOrigin),
        None => (root_text.to_owned(), RepositoryIdentitySource::PathFallback),
    }
}

/// Starts a scan: the repository metadata and its root directory, with nothing else yet.
pub fn start_scan(
    identity_source: RepositoryIdentitySource,
    stable_key: &str,
    display_name: &str,
    root_path: PathBuf,
) -> (r: Result<RepositoryScan, ScanError>)
    ensures
        match r {
            Ok(scan) => {
                &&& !crate::graph::is_blank(stable_key@)
                &&& !crate::graph::is_blank(display_name@)
                &&& scan.identity_source == identity_source
                &&& scan.repository.id@ == crate::ids::repository_hash(stable_key@)
                &&& scan.repository.stable_key@ == stable_key@
                &&& scan.repository.display_name@ == display_name@
                &&& scan.repository.root_path == root_path
                &&& scan.directories@.len() == 1
                &&& scan.directories@[0].parent_id is None
                &&& scan.directories@[0].relative_path@ == Seq::<char>::empty()
                &&& scan.directories@[0].repository_id == scan.repository.id
                &&& scan.files@.len() == 0
                &&& scan.skipped@.len() == 0
            },
            Err(e) => (e matches ScanError::RepositoryMetadata { source } && (crate::graph::is_blank(
                stable_key@,
            ) && source@ == (GraphErrorView::EmptyStableKey { entity: "repository"@ })
                || !crate::graph::is_blank(stable_key@) && crate::graph::is_blank(display_name@)
                && source@ == (GraphErrorView::EmptyName { entity: "repository"@ }))),
        },
{
    let repository = match Repository::new(stable_key, display_name, root_path) {
        Ok(repository) => repository,
        Err(source) => {
            return Err(ScanError::RepositoryMetadata { source });
        },
    };
    let root_path_value = RelativePath::root();
    let root_directory = Directory {
        id: DirectoryId::new(repository.id, &root_path_value),
        repository_id: repository.id,
        parent_id: None,
        relative_path: root_path_value,
    };
    Ok(
        RepositoryScan {
            identity_source,
            repository,
            directories: vec![root_directory],
            files: Vec::new(),
            skipped: Vec::new(),
        },
    )
}

/// What kind of filesystem entry a directory listing produced.
#[derive(Clone, Copy, Debug, PartialEq, Eq, Structural)]
pub enum WalkEntryKind {
    Symlink,
    Directory,
    File,
    Other,
}

/// What a scan does with one entry: skip it for a reason, descend into a new directory,
/// or record a file.
#[derive(Debug)]
pub enum WalkStep {
    Skip(SkippedPathReason),
    Descend(Directory),
    Record(File),
}

/// Decides what the scan does with one entry of a directory listing: symlinks are
/// skipped, then entries whose relative path does not normalize, then `.git`
/// directories; other directories are descended into, files recorded and anything else
/// skipped as unsupported.
pub fn walk_entry_step(
    repository_id: RepositoryId,
    parent_id: DirectoryId,
    kind: WalkEntryKind,
    file_name: &str,
    relative_path: &str,
) -> (r: Result<WalkStep, ScanError>)
    ensures
        kind == WalkEntryKind::Symlink ==> (r matches Ok(WalkStep::Skip(reason)) && reason
            == SkippedPathReason::Symlink),
        kind != WalkEntryKind::Symlink && relative_path_result(relative_path@) is Err ==> (
        r matches Ok(WalkStep::Skip(reason)) && reason == SkippedPathReason::InvalidRelativePath),
        kind == WalkEntryKind::Directory && relative_path_result(relative_path@) is Ok
            && file_name@ == ".git"@ ==> (r matches Ok(WalkStep::Skip(reason)) && reason
            == SkippedPathReason::IgnoredGitDirectory),
        kind == WalkEntryKind::Other && relative_path_result(relative_path@) is Ok ==> (
        r matches Ok(WalkStep::Skip(reason)) && reason == SkippedPathReason::UnsupportedFileType),
        kind == WalkEntryKind::Directory && file_name@ != ".git"@ ==> match relative_path_result(
            relative_path@,
        ) {
            Ok(normalized) => match (r, relative_path_result(normalized)) {
                (Ok(WalkStep::Descend(d)), Ok(path)) => d.relative_path@ == path && d.repository_id
                    == repository_id && d.parent_id == Some(parent_id) && d.id@
                    == crate::ids::path_entry_hash("directory"@, repository_id@, path),
                (Err(ScanError::RepositoryMetadata { source }), Err(ev)) => source@ == ev,
                _ => false,
            },
            Err(_) => true,
        },
        kind == WalkEntryKind::File ==> match relative_path_result(relative_path@) {
            Ok(normalized) => match (r, relative_path_result(normalized)) {
                (Ok(WalkStep::Record(f)), Ok(path)) => f.relative_path@ == path && f.repository_id
                    == repository_id && f.parent_id == parent_id && f.id@
                    == crate::ids::path_entry_hash("file"@, repository_id@, path),
                (Err(ScanError::RepositoryMetadata { source }), Err(ev)) => source@ == ev,
                _ => false,
            },
            Err(_) => true,
        },
{
    if kind == WalkEntryKind::Symlink {
        return Ok(WalkStep::Skip(SkippedPathReason::Symlink));
    }
    let normalized = match RelativePath::new(relative_path) {
        Ok(path) => path,
        Err(_) => {
            return Ok(WalkStep::Skip(SkippedPathReason::InvalidRelativePath));
        },
    };
    let name = chars_of(file_name);
    let git = chars_of(".git");
    let is_git = crate::text::chars_equal(&name, &git);
    match kind {
        WalkEntryKind::Directory => {
            if is_git {
                return Ok(WalkStep::Skip(SkippedPathReason::IgnoredGitDirectory));
            }
            match Directory::new(repository_id, Some(parent_id), normalized.as_str()) {
                Ok(directory) => Ok(WalkStep::Descend(directory)),
                Err(source) => Err(ScanError::RepositoryMetadata { source }),
            }
        },
        WalkEntryKind::File => match File::new(repository_id, parent_id, normalized.as_str()) {
            Ok(file) => Ok(WalkStep::Record(file)),
            Err(source) => Err(ScanError::RepositoryMetadata { source }),
        },
        _ => Ok(WalkStep::Skip(SkippedPathReason::UnsupportedFileType)),
    }
}


/// Code-point (equivalently UTF-8 byte) lexicographic order on texts, as `str::cmp` orders.
pub open spec fn text_less(a: Seq<char>, b: Seq<char>) -> bool
    decreases a.len(),
{
    if a.len() == 0 {
        b.len() > 0
    } else if b.len() == 0 {
        false
    } else if a[0] != b[0] {
        (a[0] as u32) < (b[0] as u32)
    } else {
        text_less(a.drop_first(), b.drop_first())
    }
}

/// No text comes before itself.
pub proof fn lemma_text_less_irreflexive(a: Seq<char>)
    ensures
        !text_less(a, a),
    decreases a.len(),
{
    if a.len() > 0 {
        lemma_text_less_irreflexive(a.drop_first());
    }
}

/// `text_less` is transitive.
pub proof fn lemma_text_less_transitive(a: Seq<char>, b: Seq<char>, c: Seq<char>)
    requires
        text_less(a, b),
        text_less(b, c),
    ensures
        text_less(a, c),
    decreases a.len(),
{
    if a.len() > 0 && b.len() > 0 && c.len() > 0 && a[0] == b[0] && b[0] == c[0] {
        lemma_text_less_transitive(a.drop_first(), b.drop_first(), c.drop_first());
    }
}

/// Whether `a` sorts before `b` in code-point order.
pub fn text_comes_before(a: &Vec<char>, b: &Vec<char>) -> (r: bool)
    ensures
        r == text_less(a@, b@),
{
    let mut i: usize = 0;
    assert(a@.skip(0) =~= a@);
    assert(b@.skip(0) =~= b@);
    while i < a.len() && i < b.len() && a[i] == b[i]
        invariant
            i <= a@.len(),
            i <= b@.len(),
            text_less(a@, b@) == text_less(a@.skip(i as int), b@.skip(i as int)),
        decreases a@.len() - i,
    {
        assert(a@.skip(i as int).drop_first() =~= a@.skip(i + 1));
        assert(b@.skip(i as int).drop_first() =~= b@.skip(i + 1));
        i += 1;
    }
    if i == a.len() {
        i < b.len()
    } else if i == b.len() {
        false
    } else {
        (a[i] as u32) < (b[i] as u32)
    }
}

/// Number of `/`-separated segments of a normalized path; zero for the root.
pub open spec fn path_depth(path: Seq<char>) -> nat {
    if path.len() == 0 {
        0
    } else {
        split_on(path, '/').len()
    }
}

/// Number of `/`-separated segments of a normalized path; zero for the root.
pub fn relative_path_depth(path: &str) -> (d: usize)
    ensures
        d == path_depth(path@),
{
    let chars = chars_of(path);
    if chars.len() == 0 {
        0
    } else {
        split_chars(&chars, '/').len()
    }
}

/// An order in which scan results are listed.
pub trait ScanOrder: Sized {
    /// Whether `self` is listed strictly before `other`.
    spec fn precedes(&self, other: &Self) -> bool;

    /// Whether `self` is listed strictly before `other`.
    fn comes_before(&self, other: &Self) -> (b: bool)
        ensures
            b == self.precedes(other),
    ;

    /// Nothing is listed before itself.
    proof fn lemma_precedes_irreflexive(a: &Self)
        ensures
            !a.precedes(a),
    ;

    /// Listing before is transitive.
    proof fn lemma_precedes_transitive(a: &Self, b: &Self, c: &Self)
        requires
            a.precedes(b),
            b.precedes(c),
        ensures
            a.precedes(c),
    ;
}

/// Directories are listed parents first: by depth, then by path text.
pub open spec fn directory_precedes(a: Directory, b: Directory) -> bool {
    ||| path_depth(a.relative_path@) < path_depth(b.relative_path@)
    ||| path_depth(a.relative_path@) == path_depth(b.relative_path@) && text_less(
        a.relative_path@,
        b.relative_path@,
    )
}

impl ScanOrder for Directory {
    open spec fn precedes(&self, other: &Self) -> bool {
        directory_precedes(*self, *other)
    }

    fn comes_before(&self, other: &Self) -> (b: bool) {
        let da = relative_path_depth(self.relative_path.as_str());
        let db = relative_path_depth(other.relative_path.as_str());
        if da != db {
            return da < db;
        }
        let a = chars_of(self.relative_path.as_str());
        let b = chars_of(other.relative_path.as_str());
        text_comes_before(&a, &b)
    }

    proof fn lemma_precedes_irreflexive(a: &Self) {
        lemma_text_less_irreflexive(a.relative_path@);
    }

    proof fn lemma_precedes_transitive(a: &Self, b: &Self, c: &Self) {
        if path_depth(a.relative_path@) == path_depth(b.relative_path@) && path_depth(
            b.relative_path@,
        ) == path_depth(c.relative_path@) {
            lemma_text_less_transitive(a.relative_path@, b.relative_path@, c.relative_path@);
        }
    }
}

impl ScanOrder for File {
    open spec fn precedes(&self, other: &Self) -> bool {
        text_less(self.relative_path@, other.relative_path@)
    }

    fn comes_before(&self, other: &Self) -> (b: bool) {
        let a = chars_of(self.relative_path.as_str());
        let b = chars_of(other.relative_path.as_str());
        text_comes_before(&a, &b)
    }

    proof fn lemma_precedes_irreflexive(a: &Self) {
        lemma_text_less_irreflexive(a.relative_path@);
    }

    proof fn lemma_precedes_transitive(a: &Self, b: &Self, c: &Self) {
        lemma_text_less_transitive(a.relative_path@, b.relative_path@, c.relative_path@);
    }
}

/// Whether no element is listed before an earlier one.
pub open spec fn in_scan_order<T: ScanOrder>(s: Seq<T>) -> bool {
    forall|i: int, j: int| 0 <= i < j < s.len() ==> !s[j].precedes(&s[i])
}

/// Index of an element that nothing else precedes.
fn index_of_first<T: ScanOrder>(v: &Vec<T>) -> (m: usize)
    requires
        v@.len() > 0,
    ensures
        m < v@.len(),
        forall|k: int| 0 <= k < v@.len() ==> !v@[k].precedes(&v@[m as int]),
{
    let mut best: usize = 0;
    let mut i: usize = 1;
    proof {
        T::lemma_precedes_irreflexive(&v@[0]);
    }
    while i < v.len()
        invariant
            1 <= i <= v@.len(),
            best < i,
            forall|k: int| 0 <= k < i ==> !v@[k].precedes(&v@[best as int]),
        decreases v@.len() - i,
    {
        if v[i].comes_before(&v[best]) {
            proof {
                assert forall|k: int| 0 <= k < i + 1 implies !v@[k].precedes(&v@[i as int]) by {
                    if k < i && v@[k].precedes(&v@[i as int]) {
                        T::lemma_precedes_transitive(&v@[k], &v@[i as int], &v@[best as int]);
                    }
                    if k == i {
                        T::lemma_precedes_irreflexive(&v@[k]);
                    }
                }
            }
            best = i;
        }
        i += 1;
    }
    best
}

/// The elements of `v`, rearranged into scan order.
pub fn sort_in_scan_order<T: ScanOrder>(v: Vec<T>) -> (r: Vec<T>)
    ensures
        r@.to_multiset() == v@.to_multiset(),
        in_scan_order(r@),
{
    broadcast use vstd::seq_lib::group_to_multiset_ensures;
    broadcast use vstd::multiset::group_multiset_properties;

    let ghost input = v@;
    let mut rest = v;
    let mut out: Vec<T> = Vec::new();
    assert(out@.to_multiset().add(rest@.to_multiset()) =~= input.to_multiset());
    while rest.len() > 0
        invariant
            out@.to_multiset().add(rest@.to_multiset()) == input.to_multiset(),
            in_scan_order(out@),
            forall|a: int, b: int|
                0 <= a < out@.len() && 0 <= b < rest@.len() ==> !rest@[b].precedes(&out@[a]),
        decreases rest@.len(),
    {
        let m = index_of_first(&rest);
        let ghost prev_rest = rest@;
        let ghost prev_out = out@;
        let x = rest.remove(m);
        out.push(x);
        assert(rest@ == prev_rest.remove(m as int));
        assert(out@ == prev_out.push(x));
        assert(prev_rest[m as int] == x);
        proof {
            prev_rest.to_multiset_ensures();
            prev_out.to_multiset_ensures();
        }
        assert(prev_rest.contains(x));
        assert(prev_out.push(x).to_multiset() =~= prev_out.to_multiset().insert(x));
        assert(prev_rest.remove(m as int).to_multiset() =~= prev_rest.to_multiset().remove(x));
        assert(prev_rest.to_multiset().count(x) > 0);
        assert(out@.to_multiset() =~= prev_out.to_multiset().insert(x));
        assert(rest@.to_multiset() =~= prev_rest.to_multiset().remove(x));
        assert(out@.to_multiset().add(rest@.to_multiset()) =~= input.to_multiset());
        assert forall|a: int, b: int|
            0 <= a < out@.len() && 0 <= b < rest@.len() implies !rest@[b].precedes(&out@[a]) by {
            let ob = if b < m { b } else { b + 1 };
            assert(rest@[b] == prev_rest[ob]);
        }
        assert forall|i: int, j: int| 0 <= i < j < out@.len() implies !out@[j].precedes(
            &out@[i],
        ) by {
            if j == out@.len() - 1 {
                assert(out@[j] == prev_rest[m as int]);
            }
        }
    }
    assert(rest@.to_multiset() =~= Multiset::empty());
    assert(out@.to_multiset() =~= input.to_multiset());
    out
}

/// A parent path has fewer segments than its child.
proof fn lemma_parent_is_shallower(child: Seq<char>, parent: Seq<char>)
    requires
        parent_text(child) == Some(parent),
    ensures
        path_depth(parent) < path_depth(child),
{
    crate::text::lemma_split_on_nonempty(child, '/');
    crate::path::lemma_last_slash_bounds(child);
    let k = last_slash(child);
    if k >= 0 {
        let tail = child.skip(k + 1);
        assert(child =~= parent + seq!['/'] + tail);
        crate::path::lemma_split_append(parent, '/', tail);
        crate::text::lemma_split_on_nonempty(parent, '/');
    }
}

/// In a directory list in scan order, a directory comes before each of its children.
pub proof fn lemma_parent_listed_first(dirs: Seq<Directory>, i: int, j: int)
    requires
        in_scan_order(dirs),
        0 <= i < dirs.len(),
        0 <= j < dirs.len(),
        parent_text(dirs[j].relative_path@) == Some(dirs[i].relative_path@),
    ensures
        i < j,
{
    lemma_parent_is_shallower(dirs[j].relative_path@, dirs[i].relative_path@);
    assert(dirs[i].precedes(&dirs[j]));
    if j < i {
        assert(!dirs[i].precedes(&dirs[j]));
    }
}

/// Puts a scan's directories in parent-first order and its files in path order.
pub fn sort_scan_entries(scan: &mut RepositoryScan)
    ensures
        final(scan).directories@.to_multiset() == old(scan).directories@.to_multiset(),
        in_scan_order(final(scan).directories@),
        final(scan).files@.to_multiset() == old(scan).files@.to_multiset(),
        in_scan_order(final(scan).files@),
        final(scan).identity_source == old(scan).identity_source,
        final(scan).repository == old(scan).repository,
        final(scan).skipped == old(scan).skipped,
{
    let mut directories: Vec<Directory> = Vec::new();
    std::mem::swap(&mut directories, &mut scan.directories);
    scan.directories = sort_in_scan_order(directories);
    let mut files: Vec<File> = Vec::new();
    std::mem::swap(&mut files, &mut scan.files);
    scan.files = sort_in_scan_order(files);
}

} // verus!
