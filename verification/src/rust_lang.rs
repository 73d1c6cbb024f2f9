//! The Rust language plugin: which files it handles, how it parses them and the symbols it
//! finds in them.

use tree_sitter::Tree;
use vstd::prelude::*;
use vstd::string::*;

use crate::extract::{
    extract_item_symbols, file_aliases, file_context, file_types, symbols_match, visit_list_spec,
    ExtractedSymbol,
};
use crate::parser::{
    file_values, is_rust_path, without_trailing_separators, LanguageId, LanguagePlugin,
    LanguagePluginError, ParsedFile,
};
use crate::crates::{extract_crate_symbols, repository_file_symbols, SourceItems};
use crate::syntax::{
    items_read_from, new_parser, parse_text, rust_language, set_parser_language, tree_items,
    SyntaxItem,
};
use crate::text::{chars_equal, chars_of, rfind_char, slice_chars};

verus! {

/// The identifier of the Rust language.
pub fn rust_language_id() -> (id: LanguageId)
    ensures
        id@ == "rust"@,
{
    LanguageId::new("rust")
}

/// The Rust language plugin.
pub struct RustLanguagePlugin;

fn trailing_trimmed(v: &Vec<char>) -> (r: Vec<char>)
    ensures
        r@ == without_trailing_separators(v@),
{
    let mut n = v.len();
    assert(v@.take(n as int) =~= v@);
    loop
        invariant
            n <= v@.len(),
            without_trailing_separators(v@) == without_trailing_separators(v@.take(n as int)),
        decreases n,
    {
        let ghost cur = v@.take(n as int);
        if n > 0 && v[n - 1] == '/' {
            assert(cur.drop_last() =~= v@.take(n - 1));
            n -= 1;
        } else if n >= 2 && v[n - 2] == '/' && v[n - 1] == '.' {
            assert(cur.skip(cur.len() - 2) =~= seq!['/', '.']);
            assert(cur.take(cur.len() - 2) =~= v@.take(n - 2));
            n -= 2;
        } else {
            proof {
                if n >= 2 {
                    assert(cur.skip(cur.len() - 2)[0] == v@[n - 2]);
                    assert(cur.skip(cur.len() - 2)[1] == v@[n - 1]);
                }
            }
            return slice_chars(v, 0, n);
        }
    }
}

/// Whether a path names a Rust source file: the extension of its final component is `rs`.
pub fn supports_path(path: &str) -> (b: bool)
    ensures
        b == is_rust_path(path@),
{
    let trimmed = trailing_trimmed(&chars_of(path));
    let mut slash: Vec<char> = Vec::new();
    slash.push('/');
    assert(slash@ =~= seq!['/']);
    let name = crate::text::after_last_chars(&trimmed, &slash);
    let mut dots: Vec<char> = Vec::new();
    dots.push('.');
    dots.push('.');
    assert(dots@ =~= seq!['.', '.']);
    if chars_equal(&name, &dots) {
        return false;
    }
    let n = name.len();
    let found = rfind_char(&name, '.');
    match found {
        Some(i) => {
            if i == 0 {
                false
            } else {
                assert(i < n);
                let ext = slice_chars(&name, i + 1, n);
                assert(name@.skip(i + 1) =~= ext@);
                chars_equal(&ext, &chars_of("rs"))
            }
        },
        None => false,
    }
}

/// Parses a Rust source text: the syntax tree, or why none was produced.
pub fn parse_source(source_text: &str) -> (r: Result<Tree, LanguagePluginError>) {
    let mut parser = new_parser();
    let language = rust_language();
    match set_parser_language(&mut parser, &language) {
        Ok(()) => {},
        Err(source) => {
            return Err(LanguagePluginError::ConfigureParser { source });
        },
    }
    match parse_text(&mut parser, source_text) {
        Some(tree) => Ok(tree),
        None => Err(LanguagePluginError::ParseReturnedNone),
    }
}

/// The symbols a parsed Rust file defines: those of the items of its syntax tree, in the
/// order the items and their bodies list them.
pub fn extract_symbols(parsed_file: &ParsedFile) -> (r: Vec<ExtractedSymbol>)
    ensures
        exists|items: Seq<SyntaxItem>|
            items_read_from(items, parsed_file.source_text@) && symbols_match(
                r@,
                #[trigger] visit_list_spec(
                    items,
                    file_context(parsed_file.relative_path@, parsed_file.file_id@, None),
                    file_types(items, parsed_file.relative_path@, parsed_file.file_id@),
                    file_aliases(items, parsed_file.relative_path@),
                    Seq::empty(),
                ),
                parsed_file.file_id,
                parsed_file.relative_path@,
            ),
{
    let items = tree_items(&parsed_file.tree, parsed_file.source_text.as_str());
    let r = extract_item_symbols(&items, parsed_file.file_id, &parsed_file.relative_path);
    assert(items_read_from(items@, parsed_file.source_text@));
    assert(symbols_match(
        r@,
        visit_list_spec(
            items@,
            file_context(parsed_file.relative_path@, parsed_file.file_id@, None),
            file_types(items@, parsed_file.relative_path@, parsed_file.file_id@),
            file_aliases(items@, parsed_file.relative_path@),
            Seq::empty(),
        ),
        parsed_file.file_id,
        parsed_file.relative_path@,
    ));
    r
}

/// The syntax items of a parsed file.
pub fn source_items(parsed_file: &ParsedFile) -> (r: SourceItems)
    ensures
        r.file_id == parsed_file.file_id,
        r.relative_path@ == parsed_file.relative_path@,
        items_read_from(r.items@, parsed_file.source_text@),
{
    SourceItems {
        file_id: parsed_file.file_id,
        relative_path: parsed_file.relative_path.duplicate(),
        items: tree_items(&parsed_file.tree, parsed_file.source_text.as_str()),
    }
}

/// Whether `symbols` are what reading the parsed Rust files `parsed` together gives: per
/// file, in order, the symbols `repository_file_symbols` describes, over syntax items read
/// from each file's source text.
pub open spec fn rust_repository_symbols(parsed: Seq<ParsedFile>, symbols: Seq<ExtractedSymbol>) -> bool {
    exists|parts: Seq<Seq<ExtractedSymbol>>, files: Seq<SourceItems>|
        #![trigger parts.flatten(), files.len()]
        parts.len() == parsed.len() && files.len() == parsed.len() && symbols == parts.flatten()
            && forall|k: int|
            0 <= k < parsed.len() ==> (#[trigger] files[k]).file_id == parsed[k].file_id
                && files[k].relative_path@ == parsed[k].relative_path@ && items_read_from(
                files[k].items@,
                parsed[k].source_text@,
            ) && repository_file_symbols(parts[k], files, k)
}

/// The symbols of a repository's parsed Rust files, read together: each file whose crate
/// resolves is read with its crate's type symbols and `use` aliases; any other file is
/// read on its own, outside any module.
pub fn extract_rust_repository_symbols(parsed_files: &Vec<&ParsedFile>) -> (r: Vec<ExtractedSymbol>)
    ensures
        rust_repository_symbols(file_values(parsed_files@), r@),
{
    let mut files: Vec<SourceItems> = Vec::new();
    let mut i: usize = 0;
    while i < parsed_files.len()
        invariant
            i <= parsed_files@.len(),
            files@.len() == i,
            forall|k: int|
                0 <= k < i ==> (#[trigger] files@[k]).file_id == parsed_files@[k].file_id
                    && files@[k].relative_path@ == parsed_files@[k].relative_path@
                    && items_read_from(files@[k].items@, parsed_files@[k].source_text@),
        decreases parsed_files@.len() - i,
    {
        files.push(source_items(parsed_files[i]));
        i += 1;
    }
    let r = extract_crate_symbols(&files);
    proof {
        let parts = choose|parts: Seq<Seq<ExtractedSymbol>>|
            parts.len() == files@.len() && r@ == parts.flatten() && forall|k: int|
                0 <= k < files@.len() ==> repository_file_symbols(#[trigger] parts[k], files@, k);
        let pv = file_values(parsed_files@);
        assert forall|k: int| 0 <= k < pv.len() implies (#[trigger] files@[k]).file_id
            == pv[k].file_id && files@[k].relative_path@ == pv[k].relative_path@
            && items_read_from(files@[k].items@, pv[k].source_text@) && repository_file_symbols(
            parts[k],
            files@,
            k,
        ) by {
            assert(pv[k] == *parsed_files@[k]);
        }
        assert(parts.flatten() == r@ && files@.len() == pv.len());
    }
    r
}

impl LanguagePlugin for RustLanguagePlugin {
    open spec fn language_name(&self) -> Seq<char> {
        "rust"@
    }

    open spec fn repository_symbols_of(&self, files: Seq<ParsedFile>, symbols: Seq<ExtractedSymbol>) -> bool {
        rust_repository_symbols(files, symbols)
    }

    open spec fn accepts(&self, path: Seq<char>) -> bool {
        is_rust_path(path)
    }

    fn language(&self) -> (id: LanguageId)
        ensures
            id@ == "rust"@,
    {
        rust_language_id()
    }

    fn supports_path(&self, path: &str) -> (b: bool)
        ensures
            b == is_rust_path(path@),
    {
        supports_path(path)
    }

    fn parse_source(&self, source_text: &str) -> Result<Tree, LanguagePluginError> {
        parse_source(source_text)
    }

    fn extract_symbols(&self, parsed_file: &ParsedFile) -> (r: Vec<ExtractedSymbol>)
        ensures
            exists|items: Seq<SyntaxItem>|
                items_read_from(items, parsed_file.source_text@) && symbols_match(
                    r@,
                    #[trigger] visit_list_spec(
                        items,
                        file_context(parsed_file.relative_path@, parsed_file.file_id@, None),
                        file_types(items, parsed_file.relative_path@, parsed_file.file_id@),
                        file_aliases(items, parsed_file.relative_path@),
                        Seq::empty(),
                    ),
                    parsed_file.file_id,
                    parsed_file.relative_path@,
                ),
    {
        extract_symbols(parsed_file)
    }

    fn extract_repository_symbols(&self, parsed_files: &Vec<&ParsedFile>) -> (r: Vec<
        ExtractedSymbol,
    >)
        ensures
            rust_repository_symbols(file_values(parsed_files@), r@),
    {
        extract_rust_repository_symbols(parsed_files)
    }
}

} // verus!
