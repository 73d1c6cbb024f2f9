//! Where a Rust source file sits in its package: the crate it belongs to (its crate scope)
//! and the module namespace the file's path gives it.

use vstd::prelude::*;

use crate::path::RelativePath;
use crate::scan::{
    lemma_text_less_irreflexive, lemma_text_less_transitive, text_comes_before, text_less,
};
use crate::text::{
    char_views, chars_equal, chars_have_suffix, chars_of, extend_chars, has_suffix, join_chars,
    join_with, rsplit_once_spec, split_chars, split_on, split_once_spec, string_from_chars,
};

verus! {

/// The `/`-separated segments of a relative path.
pub open spec fn path_segments(path: Seq<char>) -> Seq<Seq<char>> {
    split_on(path, '/')
}

/// The separator between path segments.
pub open spec fn slash() -> Seq<char> {
    seq!['/']
}

/// Whether a file name ends in `.rs`.
pub open spec fn is_rs_file(name: Seq<char>) -> bool {
    has_suffix(name, ".rs"@)
}

/// A file name without its `.rs` extension.
pub open spec fn rs_stem(name: Seq<char>) -> Seq<char> {
    name.take(name.len() - ".rs"@.len())
}

/// Position of the first segment equal to `s`, or -1.
pub open spec fn index_of_segment(segs: Seq<Seq<char>>, s: Seq<char>) -> int
    decreases segs.len(),
{
    if segs.len() == 0 {
        -1
    } else if segs[0] == s {
        0
    } else {
        let r = index_of_segment(segs.drop_first(), s);
        if r < 0 {
            -1
        } else {
            r + 1
        }
    }
}

/// Whether a segment names a directory of extra crate roots.
pub open spec fn is_crate_dir(seg: Seq<char>) -> bool {
    seg == "tests"@ || seg == "examples"@ || seg == "benches"@
}

/// Position of the first `tests`, `examples` or `benches` segment, or -1.
pub open spec fn index_of_crate_dir(segs: Seq<Seq<char>>) -> int
    decreases segs.len(),
{
    if segs.len() == 0 {
        -1
    } else if is_crate_dir(segs[0]) {
        0
    } else {
        let r = index_of_crate_dir(segs.drop_first());
        if r < 0 {
            -1
        } else {
            r + 1
        }
    }
}

/// The segments before the first `src` segment and those after it; with no `src`
/// segment, nothing and all of them.
pub open spec fn src_split(segs: Seq<Seq<char>>) -> (Seq<Seq<char>>, Seq<Seq<char>>) {
    let i = index_of_segment(segs, "src"@);
    if i >= 0 {
        (segs.take(i), segs.skip(i + 1))
    } else {
        (Seq::empty(), segs)
    }
}

/// The module namespace that a file's crate-relative segments give it: `lib.rs`,
/// `main.rs` and `mod.rs` add nothing, another `.rs` file adds its stem, and any other
/// last segment is dropped.
pub open spec fn module_namespace_spec(segs: Seq<Seq<char>>) -> Seq<Seq<char>> {
    if segs.len() == 0 {
        Seq::empty()
    } else {
        let last = segs.last();
        let init = segs.drop_last();
        if last == "lib.rs"@ || last == "main.rs"@ || last == "mod.rs"@ {
            init
        } else if is_rs_file(last) {
            init.push(rs_stem(last))
        } else {
            init
        }
    }
}

/// The key of a crate: its package prefix and target joined by `#`.
pub open spec fn scope_key_spec(prefix: Seq<char>, target: Seq<char>) -> Seq<char> {
    if prefix.len() == 0 {
        seq!['#'] + target
    } else {
        prefix + seq!['#'] + target
    }
}

/// Whether a `src` segment comes before position `n` of the segments.
pub open spec fn src_before(segs: Seq<Seq<char>>, n: int) -> bool {
    0 <= index_of_segment(segs, "src"@) < n
}

/// Whether the segments name a build script: a `build.rs` with no `src` segment before it
/// (a `build.rs` under `src/` is a module of its crate).
pub open spec fn is_build_script(segs: Seq<Seq<char>>) -> bool {
    segs.len() > 0 && segs.last() == "build.rs"@ && !src_before(segs, segs.len() - 1)
}

/// The crate scope of a build script.
pub open spec fn build_script_scope_spec(segs: Seq<Seq<char>>) -> Option<Seq<char>> {
    if is_build_script(segs) {
        Some(scope_key_spec(join_with(segs.drop_last(), slash()), "build"@))
    } else {
        None
    }
}

/// For a file under `tests`, `examples` or `benches` with no `src` segment before that
/// directory: the length of its package prefix and its crate target (`kind/name`). Such a
/// directory under `src/` is a module of the `src` crate.
pub open spec fn non_src_target_spec(segs: Seq<Seq<char>>) -> Option<(int, Seq<char>)> {
    let i = index_of_crate_dir(segs);
    if i < 0 || src_before(segs, i) {
        None
    } else {
        let rel = segs.skip(i);
        if rel.len() == 2 && is_rs_file(rel[1]) {
            Some((i, rel[0] + slash() + rs_stem(rel[1])))
        } else if rel.len() >= 3 {
            Some((i, rel[0] + slash() + rel[1]))
        } else {
            None
        }
    }
}

/// The crate scope of a file under `tests`, `examples` or `benches`.
pub open spec fn non_src_scope_spec(segs: Seq<Seq<char>>) -> Option<Seq<char>> {
    match non_src_target_spec(segs) {
        Some((i, target)) => Some(scope_key_spec(join_with(segs.take(i), slash()), target)),
        None => None,
    }
}

/// The crate scope a file's path alone shows: a build script, a test, example or bench
/// root, or `src/lib.rs`, `src/main.rs` and the binaries under `src/bin`.
pub open spec fn direct_scope_spec(segs: Seq<Seq<char>>) -> Option<Seq<char>> {
    match build_script_scope_spec(segs) {
        Some(s) => Some(s),
        None => match non_src_scope_spec(segs) {
            Some(s) => Some(s),
            None => {
                let (prefix, rel) = src_split(segs);
                let pp = join_with(prefix, slash());
                if rel == seq!["lib.rs"@] {
                    Some(scope_key_spec(pp, "lib"@))
                } else if rel == seq!["main.rs"@] {
                    Some(scope_key_spec(pp, "main"@))
                } else if rel.len() == 2 && rel[0] == "bin"@ && is_rs_file(rel[1]) {
                    Some(scope_key_spec(pp, "bin/"@ + rs_stem(rel[1])))
                } else if rel.len() == 3 && rel[0] == "bin"@ && rel[2] == "main.rs"@ {
                    Some(scope_key_spec(pp, "bin/"@ + rel[1]))
                } else {
                    None
                }
            },
        },
    }
}

/// The crate scope that a file nested in a `src/bin/<name>/` directory belongs to, or
/// that of a test, example or bench root.
pub open spec fn path_anchored_scope_spec(segs: Seq<Seq<char>>) -> Option<Seq<char>> {
    match non_src_scope_spec(segs) {
        Some(s) => Some(s),
        None => {
            let (prefix, rel) = src_split(segs);
            if rel.len() >= 3 && rel[0] == "bin"@ {
                Some(scope_key_spec(join_with(prefix, slash()), "bin/"@ + rel[1]))
            } else {
                None
            }
        },
    }
}

/// Package prefix and module namespace of a build script.
pub open spec fn build_layout_spec(segs: Seq<Seq<char>>) -> Option<(Seq<char>, Seq<Seq<char>>)> {
    if is_build_script(segs) {
        Some((join_with(segs.drop_last(), slash()), Seq::empty()))
    } else {
        None
    }
}

/// Package prefix and module namespace of a file of a test, example or bench crate.
pub open spec fn non_src_layout_spec(segs: Seq<Seq<char>>) -> Option<
    (Seq<char>, Seq<Seq<char>>),
> {
    match non_src_target_spec(segs) {
        Some((i, _)) => {
            let rel = segs.skip(i);
            if rel.len() == 2 && is_rs_file(rel[1]) {
                Some((join_with(segs.take(i), slash()), Seq::empty()))
            } else {
                Some((join_with(segs.take(i), slash()), module_namespace_spec(rel.skip(2))))
            }
        },
        None => None,
    }
}

/// Package prefix and module namespace of a file of a binary under `src/bin`.
pub open spec fn binary_layout_spec(prefix: Seq<Seq<char>>, rel: Seq<Seq<char>>) -> Option<
    (Seq<char>, Seq<Seq<char>>),
> {
    if rel.len() > 0 && rel[0] == "bin"@ {
        if rel.len() == 2 && is_rs_file(rel[1]) {
            Some((join_with(prefix, slash()), Seq::empty()))
        } else if rel.len() >= 2 {
            Some((join_with(prefix, slash()), module_namespace_spec(rel.skip(2))))
        } else {
            None
        }
    } else {
        None
    }
}

/// Package prefix and module namespace of any Rust source file, from its path.
pub open spec fn rust_layout_spec(segs: Seq<Seq<char>>) -> (Seq<char>, Seq<Seq<char>>) {
    match build_layout_spec(segs) {
        Some(l) => l,
        None => match non_src_layout_spec(segs) {
            Some(l) => l,
            None => {
                let (prefix, rel) = src_split(segs);
                match binary_layout_spec(prefix, rel) {
                    Some(l) => l,
                    None => (join_with(prefix, slash()), module_namespace_spec(rel)),
                }
            },
        },
    }
}

/// A segment ahead that is not the one searched for moves the first match back by one.
proof fn lemma_index_of_segment_after(ws: Seq<Seq<char>>, rest: Seq<Seq<char>>, s: Seq<char>)
    requires
        forall|k: int| 0 <= k < ws.len() ==> ws[k] != s,
    ensures
        index_of_segment(ws + rest, s) == if index_of_segment(rest, s) < 0 {
            -1
        } else {
            ws.len() + index_of_segment(rest, s)
        },
    decreases ws.len(),
{
    if ws.len() == 0 {
        assert(ws + rest =~= rest);
    } else {
        assert((ws + rest)[0] == ws[0]);
        assert((ws + rest).drop_first() =~= ws.drop_first() + rest);
        lemma_index_of_segment_after(ws.drop_first(), rest, s);
    }
}

/// Segments ahead that name no crate directory move the first crate directory back.
proof fn lemma_index_of_crate_dir_after(ws: Seq<Seq<char>>, rest: Seq<Seq<char>>)
    requires
        forall|k: int| 0 <= k < ws.len() ==> !is_crate_dir(ws[k]),
    ensures
        index_of_crate_dir(ws + rest) == if index_of_crate_dir(rest) < 0 {
            -1
        } else {
            ws.len() + index_of_crate_dir(rest)
        },
    decreases ws.len(),
{
    if ws.len() == 0 {
        assert(ws + rest =~= rest);
    } else {
        assert((ws + rest)[0] == ws[0]);
        assert((ws + rest).drop_first() =~= ws.drop_first() + rest);
        lemma_index_of_crate_dir_after(ws.drop_first(), rest);
    }
}

/// A module file and a module directory agree: `dir/foo.rs` and `dir/foo/mod.rs` both
/// give `dir`'s namespace followed by `foo`.
pub proof fn lemma_module_file_forms_agree(dir: Seq<Seq<char>>, stem: Seq<char>)
    requires
        stem != "lib"@ && stem != "main"@ && stem != "mod"@,
    ensures
        module_namespace_spec(dir.push(stem + ".rs"@)) == dir.push(stem),
        module_namespace_spec(dir.push(stem).push("mod.rs"@)) == dir.push(stem),
{
    reveal_strlit(".rs");
    reveal_strlit("lib.rs");
    reveal_strlit("main.rs");
    reveal_strlit("mod.rs");
    reveal_strlit("lib");
    reveal_strlit("main");
    reveal_strlit("mod");
    let name = stem + ".rs"@;
    assert(name.skip(name.len() - 3) =~= ".rs"@);
    assert(is_rs_file(name));
    assert(rs_stem(name) =~= stem);
    assert(name != "lib.rs"@) by {
        if name == "lib.rs"@ {
            assert(stem =~= "lib"@);
        }
    }
    assert(name != "main.rs"@) by {
        if name == "main.rs"@ {
            assert(stem =~= "main"@);
        }
    }
    assert(name != "mod.rs"@) by {
        if name == "mod.rs"@ {
            assert(stem =~= "mod"@);
        }
    }
    assert(dir.push(name).drop_last() =~= dir);
    assert(dir.push(stem).push("mod.rs"@).drop_last() =~= dir.push(stem));
}

/// Crates of different packages or different targets get different scope keys, as long
/// as no package prefix holds a `#`: one key names one crate.
pub proof fn lemma_scope_keys_distinct(p1: Seq<char>, t1: Seq<char>, p2: Seq<char>, t2: Seq<char>)
    requires
        !p1.contains('#'),
        !p2.contains('#'),
        p1 != p2 || t1 != t2,
    ensures
        scope_key_spec(p1, t1) != scope_key_spec(p2, t2),
{
    let k1 = scope_key_spec(p1, t1);
    let k2 = scope_key_spec(p2, t2);
    let q1 = p1 + seq!['#'] + t1;
    let q2 = p2 + seq!['#'] + t2;
    assert(k1 =~= q1) by {
        if p1.len() == 0 {
            assert(p1 + seq!['#'] + t1 =~= seq!['#'] + t1);
        }
    }
    assert(k2 =~= q2) by {
        if p2.len() == 0 {
            assert(p2 + seq!['#'] + t2 =~= seq!['#'] + t2);
        }
    }
    if q1 == q2 {
        let n1 = p1.len() as int;
        let n2 = p2.len() as int;
        if n1 < n2 {
            assert(q1[n1] == '#');
            assert(q2[n1] == p2[n1]);
        } else if n2 < n1 {
            assert(q2[n2] == '#');
            assert(q1[n2] == p1[n2]);
        } else {
            assert(p1 =~= q1.take(n1));
            assert(p2 =~= q2.take(n2));
            assert(t1 =~= q1.skip(n1 + 1));
            assert(t2 =~= q2.skip(n2 + 1));
        }
    }
}

/// The first crate directory lies within the segments.
proof fn lemma_index_of_crate_dir_bound(segs: Seq<Seq<char>>)
    ensures
        -1 <= index_of_crate_dir(segs) < segs.len(),
    decreases segs.len(),
{
    if segs.len() > 0 {
        lemma_index_of_crate_dir_bound(segs.drop_first());
    }
}

/// A crate's module namespaces do not depend on where the crate lies in the repository:
/// a file at `ws/src/rel` gets the namespace it would get at `src/rel`.
pub proof fn lemma_namespace_ignores_workspace_prefix(ws: Seq<Seq<char>>, rel: Seq<Seq<char>>)
    requires
        forall|k: int| 0 <= k < ws.len() ==> ws[k] != "src"@ && !is_crate_dir(ws[k]),
    ensures
        rust_layout_spec(ws + seq!["src"@] + rel).1 == rust_layout_spec(seq!["src"@] + rel).1,
{
    reveal_strlit("src");
    reveal_strlit("tests");
    reveal_strlit("examples");
    reveal_strlit("benches");
    let tail = seq!["src"@] + rel;
    let full = ws + tail;
    assert(ws + seq!["src"@] + rel =~= full);
    assert(!is_crate_dir("src"@)) by {
        assert("src"@[0] != "tests"@[0]);
        assert("src"@[0] != "examples"@[0]);
        assert("src"@[0] != "benches"@[0]);
    }
    assert(full.last() == tail.last());
    lemma_index_of_segment_after(ws, tail, "src"@);
    assert(tail[0] == "src"@);
    assert(index_of_segment(tail, "src"@) == 0);
    assert(full.skip(ws.len() as int + 1) =~= rel);
    assert(tail.skip(1) =~= rel);
    lemma_index_of_crate_dir_after(ws, tail);
    let i = index_of_crate_dir(tail);
    lemma_index_of_crate_dir_bound(tail);
    if i >= 0 {
        assert(full.skip(ws.len() as int + i) =~= tail.skip(i));
    }
}

/// The target part of a crate scope key: what follows its last `#`.
pub open spec fn scope_target(scope: Seq<char>) -> Seq<char> {
    match rsplit_once_spec(scope, '#') {
        Some((_, target)) => target,
        None => scope,
    }
}

/// How strongly a crate target is preferred: libraries, then binaries named `main`,
/// then build scripts, then the rest.
pub open spec fn target_rank(target: Seq<char>) -> u8 {
    if target == "lib"@ {
        0
    } else if target == "main"@ {
        1
    } else if target == "build"@ {
        2
    } else {
        3
    }
}

/// Whether crate scope `a` is strictly preferred to `b`: a better rank, or the same rank
/// and a target that sorts first.
pub open spec fn scope_preferred(a: Seq<char>, b: Seq<char>) -> bool {
    let (ra, rb) = (target_rank(scope_target(a)), target_rank(scope_target(b)));
    ra < rb || (ra == rb && text_less(scope_target(a), scope_target(b)))
}

/// The most preferred of the candidate scopes, the first one among equals.
pub open spec fn preferred_scope_spec(candidates: Seq<Seq<char>>) -> Option<Seq<char>>
    decreases candidates.len(),
{
    if candidates.len() == 0 {
        None
    } else {
        match preferred_scope_spec(candidates.drop_last()) {
            None => Some(candidates.last()),
            Some(best) => if scope_preferred(candidates.last(), best) {
                Some(candidates.last())
            } else {
                Some(best)
            },
        }
    }
}

/// Whether a crate scope key belongs to the package with the given prefix.
pub open spec fn scope_matches_spec(scope: Seq<char>, package_prefix: Seq<char>) -> bool {
    match split_once_spec(scope, '#') {
        Some((prefix, _)) => prefix == package_prefix,
        None => package_prefix.len() == 0,
    }
}


proof fn lemma_index_of_segment(segs: Seq<Seq<char>>, s: Seq<char>)
    ensures
        -1 <= index_of_segment(segs, s) < segs.len(),
        index_of_segment(segs, s) >= 0 ==> segs[index_of_segment(segs, s)] == s,
        forall|j: int|
            0 <= j < segs.len() && (index_of_segment(segs, s) < 0 || j < index_of_segment(
                segs,
                s,
            )) ==> segs[j] != s,
    decreases segs.len(),
{
    if segs.len() > 0 {
        lemma_index_of_segment(segs.drop_first(), s);
        assert forall|j: int|
            0 < j < segs.len() implies #[trigger] segs[j] == segs.drop_first()[j - 1] by {}
    }
}

proof fn lemma_index_of_crate_dir(segs: Seq<Seq<char>>)
    ensures
        -1 <= index_of_crate_dir(segs) < segs.len(),
        index_of_crate_dir(segs) >= 0 ==> is_crate_dir(segs[index_of_crate_dir(segs)]),
        forall|j: int|
            0 <= j < segs.len() && (index_of_crate_dir(segs) < 0 || j < index_of_crate_dir(segs))
                ==> !is_crate_dir(segs[j]),
    decreases segs.len(),
{
    if segs.len() > 0 {
        lemma_index_of_crate_dir(segs.drop_first());
        assert forall|j: int|
            0 < j < segs.len() implies #[trigger] segs[j] == segs.drop_first()[j - 1] by {}
    }
}

/// The segments `v[lo..hi]`.
fn sub_parts(v: &Vec<Vec<char>>, lo: usize, hi: usize) -> (r: Vec<Vec<char>>)
    requires
        lo <= hi <= v@.len(),
    ensures
        char_views(r@) == char_views(v@).subrange(lo as int, hi as int),
{
    let mut r: Vec<Vec<char>> = Vec::new();
    let mut i: usize = lo;
    while i < hi
        invariant
            lo <= i <= hi <= v@.len(),
            char_views(r@) == char_views(v@).subrange(lo as int, i as int),
        decreases hi - i,
    {
        let ghost prev = r@;
        let mut copy: Vec<char> = Vec::new();
        extend_chars(&mut copy, &v[i]);
        r.push(copy);
        assert(char_views(r@) =~= char_views(prev).push(v@[i as int]@));
        assert(char_views(v@).subrange(lo as int, i + 1) =~= char_views(v@).subrange(
            lo as int,
            i as int,
        ).push(v@[i as int]@));
        i += 1;
    }
    r
}

/// Whether a segment is exactly the text `lit`.
fn seg_is(seg: &Vec<char>, lit: &str) -> (b: bool)
    ensures
        b == (seg@ == lit@),
{
    chars_equal(seg, &chars_of(lit))
}

fn ends_rs(seg: &Vec<char>) -> (b: bool)
    ensures
        b == is_rs_file(seg@),
{
    chars_have_suffix(seg, &chars_of(".rs"))
}

fn stem_of(seg: &Vec<char>) -> (r: Vec<char>)
    requires
        is_rs_file(seg@),
    ensures
        r@ == rs_stem(seg@),
{
    let ext = chars_of(".rs");
    match crate::text::strip_suffix_chars(seg, &ext) {
        Some(stem) => stem,
        None => Vec::new(),
    }
}

fn join_slash(parts: &Vec<Vec<char>>) -> (r: Vec<char>)
    ensures
        r@ == join_with(char_views(parts@), slash()),
{
    let mut sep: Vec<char> = Vec::new();
    sep.push('/');
    assert(sep@ =~= slash());
    join_chars(parts, &sep)
}

fn find_segment(segs: &Vec<Vec<char>>, lit: &str) -> (r: Option<usize>)
    ensures
        match r {
            Some(i) => i == index_of_segment(char_views(segs@), lit@),
            None => index_of_segment(char_views(segs@), lit@) < 0,
        },
{
    let ghost sv = char_views(segs@);
    proof {
        lemma_index_of_segment(sv, lit@);
    }
    let mut i: usize = 0;
    while i < segs.len()
        invariant
            i <= segs@.len(),
            sv == char_views(segs@),
            -1 <= index_of_segment(sv, lit@) < sv.len(),
            index_of_segment(sv, lit@) >= 0 ==> sv[index_of_segment(sv, lit@)] == lit@,
            forall|j: int|
                0 <= j < sv.len() && (index_of_segment(sv, lit@) < 0 || j < index_of_segment(
                    sv,
                    lit@,
                )) ==> sv[j] != lit@,
            forall|j: int| 0 <= j < i ==> sv[j] != lit@,
        decreases segs@.len() - i,
    {
        assert(sv[i as int] == segs@[i as int]@);
        if seg_is(&segs[i], lit) {
            return Some(i);
        }
        i += 1;
    }
    None
}

/// Whether a `src` segment comes before position `n`.
fn has_src_before(segs: &Vec<Vec<char>>, n: usize) -> (b: bool)
    ensures
        b == src_before(char_views(segs@), n as int),
{
    match find_segment(segs, "src") {
        Some(s) => s < n,
        None => false,
    }
}

fn find_crate_dir(segs: &Vec<Vec<char>>) -> (r: Option<usize>)
    ensures
        match r {
            Some(i) => i == index_of_crate_dir(char_views(segs@)),
            None => index_of_crate_dir(char_views(segs@)) < 0,
        },
{
    let ghost sv = char_views(segs@);
    proof {
        lemma_index_of_crate_dir(sv);
    }
    let mut i: usize = 0;
    while i < segs.len()
        invariant
            i <= segs@.len(),
            sv == char_views(segs@),
            -1 <= index_of_crate_dir(sv) < sv.len(),
            index_of_crate_dir(sv) >= 0 ==> is_crate_dir(sv[index_of_crate_dir(sv)]),
            forall|j: int|
                0 <= j < sv.len() && (index_of_crate_dir(sv) < 0 || j < index_of_crate_dir(sv))
                    ==> !is_crate_dir(sv[j]),
            forall|j: int| 0 <= j < i ==> !is_crate_dir(#[trigger] sv[j]),
        decreases segs@.len() - i,
    {
        assert(sv[i as int] == segs@[i as int]@);
        if seg_is(&segs[i], "tests") || seg_is(&segs[i], "examples") || seg_is(
            &segs[i],
            "benches",
        ) {
            return Some(i);
        }
        i += 1;
    }
    None
}

/// The key of a crate: its package prefix and target joined by `#`.
pub fn crate_scope_key(package_prefix: &Vec<char>, target: &Vec<char>) -> (r: Vec<char>)
    ensures
        r@ == scope_key_spec(package_prefix@, target@),
{
    let mut r: Vec<char> = Vec::new();
    extend_chars(&mut r, package_prefix);
    r.push('#');
    extend_chars(&mut r, target);
    assert(r@ =~= scope_key_spec(package_prefix@, target@));
    r
}

/// The module namespace that a file's crate-relative segments give it.
pub fn module_namespace_from_segments(segs: &Vec<Vec<char>>) -> (r: Vec<Vec<char>>)
    ensures
        char_views(r@) == module_namespace_spec(char_views(segs@)),
{
    let n = segs.len();
    if n == 0 {
        let r: Vec<Vec<char>> = Vec::new();
        assert(char_views(r@) =~= Seq::<Seq<char>>::empty());
        return r;
    }
    let mut r = sub_parts(segs, 0, n - 1);
    assert(char_views(segs@).subrange(0, n - 1) =~= char_views(segs@).drop_last());
    let last = &segs[n - 1];
    assert(char_views(segs@).last() == last@);
    if seg_is(last, "lib.rs") || seg_is(last, "main.rs") || seg_is(last, "mod.rs") {
        r
    } else if ends_rs(last) {
        let ghost prev = r@;
        r.push(stem_of(last));
        assert(char_views(r@) =~= char_views(prev).push(rs_stem(last@)));
        r
    } else {
        r
    }
}

/// The `(package prefix length, kind/name)` of a test, example or bench crate file.
fn non_src_crate_target(segs: &Vec<Vec<char>>) -> (r: Option<(usize, Vec<char>)>)
    ensures
        match (r, non_src_target_spec(char_views(segs@))) {
            (Some((i, t)), Some((j, u))) => i == j && t@ == u && i <= segs@.len(),
            (None, None) => true,
            _ => false,
        },
{
    let ghost sv = char_views(segs@);
    proof {
        lemma_index_of_crate_dir(sv);
    }
    match find_crate_dir(segs) {
        None => None,
        Some(i) => {
            if has_src_before(segs, i) {
                return None;
            }
            let n = segs.len();
            let ghost rel = sv.skip(i as int);
            if n - i >= 1 {
                assert(rel[0] == segs@[i as int]@);
            }
            if n - i >= 2 {
                assert(rel[1] == segs@[i + 1]@);
            }
            if n - i == 2 && ends_rs(&segs[i + 1]) {
                let mut t: Vec<char> = Vec::new();
                extend_chars(&mut t, &segs[i]);
                t.push('/');
                extend_chars(&mut t, &stem_of(&segs[i + 1]));
                assert(t@ =~= rel[0] + slash() + rs_stem(rel[1]));
                Some((i, t))
            } else if n - i >= 3 {
                let mut t: Vec<char> = Vec::new();
                extend_chars(&mut t, &segs[i]);
                t.push('/');
                extend_chars(&mut t, &segs[i + 1]);
                assert(t@ =~= rel[0] + slash() + rel[1]);
                Some((i, t))
            } else {
                None
            }
        },
    }
}

fn non_src_crate_scope(segs: &Vec<Vec<char>>) -> (r: Option<Vec<char>>)
    ensures
        match (r, non_src_scope_spec(char_views(segs@))) {
            (Some(a), Some(b)) => a@ == b,
            (None, None) => true,
            _ => false,
        },
{
    match non_src_crate_target(segs) {
        Some((i, target)) => {
            let prefix = sub_parts(segs, 0, i);
            assert(char_views(segs@).subrange(0, i as int) =~= char_views(segs@).take(i as int));
            Some(crate_scope_key(&join_slash(&prefix), &target))
        },
        None => None,
    }
}

fn build_script_scope(segs: &Vec<Vec<char>>) -> (r: Option<Vec<char>>)
    ensures
        match (r, build_script_scope_spec(char_views(segs@))) {
            (Some(a), Some(b)) => a@ == b,
            (None, None) => true,
            _ => false,
        },
{
    let n = segs.len();
    if n > 0 && seg_is(&segs[n - 1], "build.rs") && !has_src_before(segs, n - 1) {
        assert(char_views(segs@).last() == segs@[n - 1]@);
        let prefix = sub_parts(segs, 0, n - 1);
        assert(char_views(segs@).subrange(0, n - 1) =~= char_views(segs@).drop_last());
        Some(crate_scope_key(&join_slash(&prefix), &chars_of("build")))
    } else {
        proof {
            if n > 0 {
                assert(char_views(segs@).last() == segs@[n - 1]@);
            }
        }
        None
    }
}

/// The segments before and after the first `src` segment.
fn split_at_src(segs: &Vec<Vec<char>>) -> (r: (Vec<Vec<char>>, Vec<Vec<char>>))
    ensures
        char_views(r.0@) == src_split(char_views(segs@)).0,
        char_views(r.1@) == src_split(char_views(segs@)).1,
{
    let n = segs.len();
    match find_segment(segs, "src") {
        Some(i) => {
            proof {
                lemma_index_of_segment(char_views(segs@), "src"@);
            }
            let a = sub_parts(segs, 0, i);
            let b = sub_parts(segs, i + 1, n);
            assert(char_views(segs@).subrange(0, i as int) =~= char_views(segs@).take(i as int));
            assert(char_views(segs@).subrange(i + 1, n as int) =~= char_views(segs@).skip(
                i + 1,
            ));
            (a, b)
        },
        None => {
            let b = sub_parts(segs, 0, n);
            assert(char_views(segs@).subrange(0, n as int) =~= char_views(segs@));
            let a: Vec<Vec<char>> = Vec::new();
            assert(char_views(a@) =~= Seq::<Seq<char>>::empty());
            (a, b)
        },
    }
}


fn segments_of(path: &RelativePath) -> (segs: Vec<Vec<char>>)
    ensures
        char_views(segs@) == path_segments(path@),
{
    split_chars(&chars_of(path.as_str()), '/')
}

fn strings_of(parts: &Vec<Vec<char>>) -> (r: Vec<String>)
    ensures
        r@.map_values(|s: String| s@) == char_views(parts@),
{
    let mut r: Vec<String> = Vec::new();
    let mut i: usize = 0;
    while i < parts.len()
        invariant
            i <= parts@.len(),
            r@.map_values(|s: String| s@) == char_views(parts@).take(i as int),
        decreases parts@.len() - i,
    {
        let ghost prev = r@;
        let s = string_from_chars(&parts[i]);
        r.push(s);
        assert(r@.map_values(|s: String| s@) =~= prev.map_values(|s: String| s@).push(
            parts@[i as int]@,
        ));
        assert(char_views(parts@).take(i + 1) =~= char_views(parts@).take(i as int).push(
            parts@[i as int]@,
        ));
        i += 1;
    }
    assert(char_views(parts@).take(parts@.len() as int) =~= char_views(parts@));
    r
}

fn direct_scope_of_segments(segs: &Vec<Vec<char>>) -> (r: Option<Vec<char>>)
    ensures
        match (r, direct_scope_spec(char_views(segs@))) {
            (Some(a), Some(b)) => a@ == b,
            (None, None) => true,
            _ => false,
        },
{
    if let Some(scope) = build_script_scope(segs) {
        return Some(scope);
    }
    if let Some(scope) = non_src_crate_scope(segs) {
        return Some(scope);
    }
    let (prefix, rel) = split_at_src(segs);
    let pp = join_slash(&prefix);
    let ghost rv = char_views(rel@);
    let n = rel.len();
    if n >= 1 {
        assert(rv[0] == rel@[0]@);
    }
    if n >= 2 {
        assert(rv[1] == rel@[1]@);
    }
    if n >= 3 {
        assert(rv[2] == rel@[2]@);
    }
    if n == 1 && seg_is(&rel[0], "lib.rs") {
        assert(rv =~= seq!["lib.rs"@]);
        Some(crate_scope_key(&pp, &chars_of("lib")))
    } else if n == 1 && seg_is(&rel[0], "main.rs") {
        assert(rv =~= seq!["main.rs"@]);
        assert(rv != seq!["lib.rs"@]);
        Some(crate_scope_key(&pp, &chars_of("main")))
    } else if n == 2 && seg_is(&rel[0], "bin") && ends_rs(&rel[1]) {
        assert(rv.len() != 1);
        let mut t = chars_of("bin/");
        extend_chars(&mut t, &stem_of(&rel[1]));
        Some(crate_scope_key(&pp, &t))
    } else if n == 3 && seg_is(&rel[0], "bin") && seg_is(&rel[2], "main.rs") {
        assert(rv.len() != 1);
        let mut t = chars_of("bin/");
        extend_chars(&mut t, &rel[1]);
        Some(crate_scope_key(&pp, &t))
    } else {
        proof {
            if n == 1 {
                assert(rv != seq!["lib.rs"@]) by {
                    if rv == seq!["lib.rs"@] {
                        assert(rv[0] == "lib.rs"@);
                    }
                }
                assert(rv != seq!["main.rs"@]) by {
                    if rv == seq!["main.rs"@] {
                        assert(rv[0] == "main.rs"@);
                    }
                }
            } else {
                assert(rv.len() != seq!["lib.rs"@].len());
                assert(rv.len() != seq!["main.rs"@].len());
            }
        }
        None
    }
}

/// The crate scope that a file's path alone shows (a build script, a test, example or
/// bench root, `src/lib.rs`, `src/main.rs`, or a binary root under `src/bin`).
pub fn direct_crate_scope(path: &RelativePath) -> (r: Option<String>)
    ensures
        match (r, direct_scope_spec(path_segments(path@))) {
            (Some(a), Some(b)) => a@ == b,
            (None, None) => true,
            _ => false,
        },
{
    match direct_scope_of_segments(&segments_of(path)) {
        Some(scope) => Some(string_from_chars(&scope)),
        None => None,
    }
}

/// The crate scope of a file inside a `src/bin/<name>/` directory, or of a test, example
/// or bench crate file.
pub fn path_anchored_crate_scope(path: &RelativePath) -> (r: Option<String>)
    ensures
        match (r, path_anchored_scope_spec(path_segments(path@))) {
            (Some(a), Some(b)) => a@ == b,
            (None, None) => true,
            _ => false,
        },
{
    let segs = segments_of(path);
    if let Some(scope) = non_src_crate_scope(&segs) {
        return Some(string_from_chars(&scope));
    }
    let (prefix, rel) = split_at_src(&segs);
    let ghost rv = char_views(rel@);
    if rel.len() >= 3 && seg_is(&rel[0], "bin") {
        assert(rv[0] == rel@[0]@ && rv[1] == rel@[1]@);
        let mut t = chars_of("bin/");
        extend_chars(&mut t, &rel[1]);
        Some(string_from_chars(&crate_scope_key(&join_slash(&prefix), &t)))
    } else {
        proof {
            if rel.len() >= 3 {
                assert(rv[0] == rel@[0]@);
            }
        }
        None
    }
}


/// Package prefix and module namespace of a Rust source file.
pub struct RustSourceLayout {
    pub package_prefix: String,
    pub namespace: Vec<String>,
}

impl RustSourceLayout {
    /// The layout as `(package prefix, namespace segments)`.
    pub open spec fn parts(&self) -> (Seq<char>, Seq<Seq<char>>) {
        (self.package_prefix@, self.namespace@.map_values(|s: String| s@))
    }
}

fn layout_of(prefix: &Vec<Vec<char>>, namespace: &Vec<Vec<char>>) -> (r: RustSourceLayout)
    ensures
        r.parts() == (join_with(char_views(prefix@), slash()), char_views(namespace@)),
{
    RustSourceLayout {
        package_prefix: string_from_chars(&join_slash(prefix)),
        namespace: strings_of(namespace),
    }
}

fn no_segments() -> (r: Vec<Vec<char>>)
    ensures
        char_views(r@) == Seq::<Seq<char>>::empty(),
{
    let r: Vec<Vec<char>> = Vec::new();
    assert(char_views(r@) =~= Seq::<Seq<char>>::empty());
    r
}

fn non_src_crate_layout(segs: &Vec<Vec<char>>) -> (r: Option<RustSourceLayout>)
    ensures
        match (r, non_src_layout_spec(char_views(segs@))) {
            (Some(a), Some(b)) => a.parts() == b,
            (None, None) => true,
            _ => false,
        },
{
    let ghost sv = char_views(segs@);
    match non_src_crate_target(segs) {
        None => None,
        Some((i, _)) => {
            let n = segs.len();
            proof {
                lemma_index_of_crate_dir(sv);
            }
            let prefix = sub_parts(segs, 0, i);
            assert(sv.subrange(0, i as int) =~= sv.take(i as int));
            let ghost rel = sv.skip(i as int);
            if n - i == 2 && ends_rs(&segs[i + 1]) {
                assert(rel[1] == segs@[i + 1]@);
                Some(layout_of(&prefix, &no_segments()))
            } else {
                proof {
                    if n - i == 2 {
                        assert(rel[1] == segs@[i + 1]@);
                    }
                }
                let rest = sub_parts(segs, i + 2, n);
                assert(sv.subrange(i + 2, n as int) =~= rel.skip(2));
                Some(layout_of(&prefix, &module_namespace_from_segments(&rest)))
            }
        },
    }
}

fn binary_source_layout(prefix: &Vec<Vec<char>>, rel: &Vec<Vec<char>>) -> (r: Option<
    RustSourceLayout,
>)
    ensures
        match (r, binary_layout_spec(char_views(prefix@), char_views(rel@))) {
            (Some(a), Some(b)) => a.parts() == b,
            (None, None) => true,
            _ => false,
        },
{
    let ghost rv = char_views(rel@);
    let n = rel.len();
    if n == 0 || !seg_is(&rel[0], "bin") {
        proof {
            if n > 0 {
                assert(rv[0] == rel@[0]@);
            }
        }
        return None;
    }
    assert(rv[0] == rel@[0]@);
    if n == 2 && ends_rs(&rel[1]) {
        assert(rv[1] == rel@[1]@);
        Some(layout_of(prefix, &no_segments()))
    } else if n >= 2 {
        proof {
            if n == 2 {
                assert(rv[1] == rel@[1]@);
            }
        }
        let rest = sub_parts(rel, 2, n);
        assert(rv.subrange(2, n as int) =~= rv.skip(2));
        Some(layout_of(prefix, &module_namespace_from_segments(&rest)))
    } else {
        None
    }
}

/// Package prefix and module namespace of a Rust source file, from its path.
pub fn rust_source_layout(path: &RelativePath) -> (r: RustSourceLayout)
    ensures
        r.parts() == rust_layout_spec(path_segments(path@)),
{
    let segs = segments_of(path);
    let n = segs.len();
    if n > 0 && seg_is(&segs[n - 1], "build.rs") && !has_src_before(&segs, n - 1) {
        assert(char_views(segs@).last() == segs@[n - 1]@);
        let prefix = sub_parts(&segs, 0, n - 1);
        assert(char_views(segs@).subrange(0, n - 1) =~= char_views(segs@).drop_last());
        return layout_of(&prefix, &no_segments());
    }
    proof {
        if n > 0 {
            assert(char_views(segs@).last() == segs@[n - 1]@);
        }
    }
    if let Some(layout) = non_src_crate_layout(&segs) {
        return layout;
    }
    let (prefix, rel) = split_at_src(&segs);
    if let Some(layout) = binary_source_layout(&prefix, &rel) {
        return layout;
    }
    layout_of(&prefix, &module_namespace_from_segments(&rel))
}

/// The module namespace a file's path gives it.
pub fn file_namespace(path: &RelativePath) -> (r: Vec<String>)
    ensures
        r@.map_values(|s: String| s@) == rust_layout_spec(path_segments(path@)).1,
{
    rust_source_layout(path).namespace
}

/// The package prefix of the crate a file belongs to.
pub fn package_prefix(path: &RelativePath) -> (r: String)
    ensures
        r@ == rust_layout_spec(path_segments(path@)).0,
{
    rust_source_layout(path).package_prefix
}

/// The rank and target of a crate scope, by which candidate scopes are preferred.
pub fn crate_scope_preference(scope: &str) -> (r: (u8, String))
    ensures
        r.0 == target_rank(scope_target(scope@)),
        r.1@ == scope_target(scope@),
{
    let chars = chars_of(scope);
    let n = chars.len();
    let found = crate::text::rfind_char(&chars, '#');
    let target = match found {
        Some(i) => {
            assert(i < n);
            crate::text::slice_chars(&chars, i + 1, n)
        },
        None => chars,
    };
    let rank: u8 = if chars_equal(&target, &chars_of("lib")) {
        0
    } else if chars_equal(&target, &chars_of("main")) {
        1
    } else if chars_equal(&target, &chars_of("build")) {
        2
    } else {
        3
    };
    (rank, string_from_chars(&target))
}

/// The most preferred candidate crate scope: the best rank (library, `main`, build
/// script, other), then the target that sorts first; the first one among equals.
pub fn preferred_crate_scope(candidates: Vec<String>) -> (r: Option<String>)
    ensures
        match (r, preferred_scope_spec(candidates@.map_values(|s: String| s@))) {
            (Some(a), Some(b)) => a@ == b,
            (None, None) => true,
            _ => false,
        },
{
    let ghost cv = candidates@.map_values(|s: String| s@);
    let mut best: Option<(usize, u8, Vec<char>)> = None;
    let mut i: usize = 0;
    while i < candidates.len()
        invariant
            i <= candidates@.len(),
            cv == candidates@.map_values(|s: String| s@),
            match (best, preferred_scope_spec(cv.take(i as int))) {
                (Some((k, rank, target)), Some(b)) => k < i && cv[k as int] == b && rank
                    == target_rank(scope_target(b)) && target@ == scope_target(b),
                (None, None) => true,
                _ => false,
            },
        decreases candidates@.len() - i,
    {
        let (rank, target_text) = crate_scope_preference(candidates[i].as_str());
        let target = chars_of(target_text.as_str());
        assert(cv.take(i + 1).drop_last() =~= cv.take(i as int));
        assert(cv.take(i + 1).last() == cv[i as int]);
        assert(cv[i as int] == candidates@[i as int]@);
        let replace = match &best {
            None => true,
            Some((_, best_rank, best_target)) => rank < *best_rank || (rank == *best_rank
                && text_comes_before(&target, best_target)),
        };
        if replace {
            best = Some((i, rank, target));
        }
        i += 1;
    }
    assert(cv.take(candidates@.len() as int) =~= cv);
    match best {
        Some((k, _, _)) => {
            assert(cv[k as int] == candidates@[k as int]@);
            Some(candidates[k].clone())
        },
        None => None,
    }
}

/// Whether a crate scope key belongs to the package with the given prefix.
pub fn scope_matches_package(scope: &str, package_prefix: &str) -> (b: bool)
    ensures
        b == scope_matches_spec(scope@, package_prefix@),
{
    let chars = chars_of(scope);
    let prefix = chars_of(package_prefix);
    match crate::text::find_char(&chars, '#') {
        Some(i) => chars_equal(&crate::text::slice_chars(&chars, 0, i), &prefix),
        None => prefix.len() == 0,
    }
}


proof fn lemma_scope_preferred_transitive(a: Seq<char>, b: Seq<char>, c: Seq<char>)
    requires
        scope_preferred(a, b),
        scope_preferred(b, c),
    ensures
        scope_preferred(a, c),
{
    if target_rank(scope_target(a)) == target_rank(scope_target(b)) && target_rank(
        scope_target(b),
    ) == target_rank(scope_target(c)) {
        lemma_text_less_transitive(scope_target(a), scope_target(b), scope_target(c));
    }
}

/// The preferred crate scope is one of the candidates, there is one whenever there is a
/// candidate, and no candidate is strictly preferred to it.
pub proof fn lemma_preferred_scope_is_best(candidates: Seq<Seq<char>>)
    ensures
        preferred_scope_spec(candidates) is Some <==> candidates.len() > 0,
        preferred_scope_spec(candidates) matches Some(best) ==> candidates.contains(best)
            && forall|j: int|
            0 <= j < candidates.len() ==> !scope_preferred(#[trigger] candidates[j], best),
    decreases candidates.len(),
{
    if candidates.len() > 0 {
        let init = candidates.drop_last();
        let last = candidates.last();
        lemma_preferred_scope_is_best(init);
        lemma_text_less_irreflexive(scope_target(last));
        assert(candidates[candidates.len() - 1] == last);
        match preferred_scope_spec(init) {
            None => {
                assert(candidates =~= seq![last]);
            },
            Some(best) => {
                let k = choose|k: int| 0 <= k < init.len() && init[k] == best;
                assert(candidates[k] == best);
                if scope_preferred(last, best) {
                    assert forall|j: int|
                        0 <= j < candidates.len() implies !scope_preferred(
                        #[trigger] candidates[j],
                        last,
                    ) by {
                        if j < candidates.len() - 1 {
                            assert(candidates[j] == init[j]);
                            if scope_preferred(candidates[j], last) {
                                lemma_scope_preferred_transitive(candidates[j], last, best);
                            }
                        }
                    }
                } else {
                    assert forall|j: int|
                        0 <= j < candidates.len() implies !scope_preferred(
                        #[trigger] candidates[j],
                        best,
                    ) by {
                        if j < candidates.len() - 1 {
                            assert(candidates[j] == init[j]);
                        }
                    }
                }
            },
        }
    }
}

} // verus!
