//! Language plugins, their registry, and the parsing of a repository's source files.

use tree_sitter::{LanguageError, Tree};
use vstd::prelude::*;
use vstd::string::*;

use crate::extract::ExtractedSymbol;
use crate::graph::File;
use crate::ids::FileId;
use crate::path::{display_text, RelativePath};
use crate::scan::RepositoryScan;
use crate::syntax::tree_has_error;
use crate::text::{after_last_text, has_suffix, last_index};

verus! {

/// Stable identifier for a source language handled by parser plugins.
#[derive(Clone, Copy, Debug, PartialEq, Eq, PartialOrd, Ord, Hash)]
pub struct LanguageId(&'static str);

impl View for LanguageId {
    type V = Seq<char>;

    closed spec fn view(&self) -> Seq<char> {
        self.0@
    }
}

impl LanguageId {
    /// Creates a new stable language identifier.
    pub fn new(id: &'static str) -> (r: Self)
        ensures
            r@ == id@,
    {
        LanguageId(id)
    }

    /// Returns the underlying stable language identifier string.
    pub fn as_str(self) -> (s: &'static str)
        ensures
            s@ == self@,
    {
        self.0
    }

    /// The identifier's display form: its text.
    pub fn to_string(&self) -> (s: String)
        ensures
            s@ == self@,
    {
        crate::text::string_from_chars(&crate::text::chars_of(self.0))
    }
}

/// The path with trailing `/` separators and trailing `/.` components removed, as path
/// components ignore them.
pub open spec fn without_trailing_separators(p: Seq<char>) -> Seq<char>
    decreases p.len(),
{
    if p.len() > 0 && p.last() == '/' {
        without_trailing_separators(p.drop_last())
    } else if p.len() >= 2 && has_suffix(p, seq!['/', '.']) {
        without_trailing_separators(p.take(p.len() - 2))
    } else {
        p
    }
}

/// The final component of a path.
pub open spec fn file_name_spec(p: Seq<char>) -> Seq<char> {
    after_last_text(without_trailing_separators(p), seq!['/'])
}

/// The extension of a file name: the text after its last `.`, unless that `.` begins the
/// name or the name is `..`.
pub open spec fn extension_spec(name: Seq<char>) -> Option<Seq<char>> {
    let i = last_index(name, '.');
    if name == seq!['.', '.'] || i <= 0 {
        None
    } else {
        Some(name.skip(i + 1))
    }
}

/// Whether a path names a Rust source file: its extension is `rs`.
pub open spec fn is_rust_path(p: Seq<char>) -> bool {
    extension_spec(file_name_spec(p)) == Some("rs"@)
}

/// Supported source languages for parser dispatch.
#[derive(Clone, Copy, Debug, PartialEq, Eq, Structural)]
pub enum SourceLanguage {
    Rust,
}

impl SourceLanguage {
    /// The language of a file, from its extension.
    pub fn from_relative_path(path: &RelativePath) -> (r: Option<Self>)
        ensures
            r == (if is_rust_path(path@) {
                Some(SourceLanguage::Rust)
            } else {
                None
            }),
    {
        if crate::rust_lang::supports_path(path.as_str()) {
            Some(SourceLanguage::Rust)
        } else {
            None
        }
    }

    /// The language's display name.
    pub fn name(self) -> (s: &'static str)
        ensures
            s@ == "Rust"@,
    {
        "Rust"
    }
}

/// Parsed syntax data for a repository file.
#[derive(Debug)]
pub struct ParsedFile {
    pub file_id: FileId,
    pub relative_path: RelativePath,
    pub language: LanguageId,
    pub source_text: String,
    pub tree: Tree,
}

/// Errors returned by repository parsing.
#[derive(Debug)]
pub enum ParseError {
    ConfigureParser { path: RelativePath, language: LanguageId, source: LanguageError },
    ReadSource { path: RelativePath, source: std::io::Error },
    ParseReturnedNone { path: RelativePath, language: LanguageId },
    SyntaxErrors { path: RelativePath, language: LanguageId },
}

/// Why a plugin produced no syntax tree.
#[derive(Debug)]
pub enum LanguagePluginError {
    ConfigureParser { source: LanguageError },
    ParseReturnedNone,
}

/// The message of a grammar version mismatch, as tree-sitter words it (its `Display`).
#[verifier::external_body]
fn language_error_text(error: &LanguageError) -> String {
    format!("{error}")
}

/// The message of a parse error, the grammar error's own message aside.
pub open spec fn parse_error_message(e: &ParseError, source_text: Seq<char>) -> Seq<char> {
    match e {
        ParseError::ConfigureParser { path, language, .. } => "failed to configure "@ + language@
            + " parser for `"@ + display_text(path@) + "`: "@ + source_text,
        ParseError::ReadSource { path, .. } => "failed to read source file `"@ + display_text(
            path@,
        ) + "`"@,
        ParseError::ParseReturnedNone { path, language } => language@
            + " parser did not return a syntax tree for `"@ + display_text(path@) + "`"@,
        ParseError::SyntaxErrors { path, language } => language@
            + " parser reported syntax errors in `"@ + display_text(path@) + "`"@,
    }
}

impl ParseError {
    /// Renders the error as a human-readable message.
    pub fn to_string(&self) -> (s: String)
        ensures
            exists|t: Seq<char>| s@ == parse_error_message(self, t),
            !(self is ConfigureParser) ==> s@ == parse_error_message(self, Seq::empty()),
    {
        let mut s = String::new();
        match self {
            ParseError::ConfigureParser { path, language, source } => {
                let detail = language_error_text(source);
                s.append("failed to configure ");
                s.append(language.as_str());
                s.append(" parser for `");
                s.append(path.to_string().as_str());
                s.append("`: ");
                s.append(detail.as_str());
                assert(s@ =~= parse_error_message(self, detail@));
            },
            ParseError::ReadSource { path, .. } => {
                s.append("failed to read source file `");
                s.append(path.to_string().as_str());
                s.append("`");
                assert(s@ =~= parse_error_message(self, Seq::empty()));
            },
            ParseError::ParseReturnedNone { path, language } => {
                s.append(language.as_str());
                s.append(" parser did not return a syntax tree for `");
                s.append(path.to_string().as_str());
                s.append("`");
                assert(s@ =~= parse_error_message(self, Seq::empty()));
            },
            ParseError::SyntaxErrors { path, language } => {
                s.append(language.as_str());
                s.append(" parser reported syntax errors in `");
                s.append(path.to_string().as_str());
                s.append("`");
                assert(s@ =~= parse_error_message(self, Seq::empty()));
            },
        }
        s
    }
}

/// A language integration that can classify, parse and extract symbols from repository
/// files. Implementations decide each answer; nothing is stated of them.
pub trait LanguagePlugin: Sync {
    /// The name of the language this plugin handles: what `language` answers.
    spec fn language_name(&self) -> Seq<char>;

    /// The language this plugin handles.
    fn language(&self) -> (id: LanguageId)
        ensures
            id@ == self.language_name(),
    ;

    /// Whether the plugin handles files at `path`: what `supports_path` answers, for every
    /// path alike.
    spec fn accepts(&self, path: Seq<char>) -> bool;

    /// Whether the plugin handles the file at the given path.
    fn supports_path(&self, path: &str) -> (b: bool)
        ensures
            b == self.accepts(path@),
    ;

    /// Parses a source text.
    fn parse_source(&self, source_text: &str) -> Result<Tree, LanguagePluginError>;

    /// The symbols defined by a parsed file.
    fn extract_symbols(&self, parsed_file: &ParsedFile) -> Vec<ExtractedSymbol>;

    /// Whether `symbols` is an answer the plugin gives when handed `files` together: what
    /// `extract_repository_symbols` returns meets it.
    spec fn repository_symbols_of(&self, files: Seq<ParsedFile>, symbols: Seq<ExtractedSymbol>) -> bool;

    /// The symbols defined by the parsed files of a repository this plugin handles, read
    /// together so that one file can resolve names another defines.
    fn extract_repository_symbols(&self, parsed_files: &Vec<&ParsedFile>) -> (r: Vec<
        ExtractedSymbol,
    >)
        ensures
            self.repository_symbols_of(file_values(parsed_files@), r@),
    ;
}

/// The files a list of references points at, in order.
pub open spec fn file_values<'a>(files: Seq<&'a ParsedFile>) -> Seq<ParsedFile> {
    files.map_values(|f: &ParsedFile| *f)
}

/// The parsed files among the first `n` whose first accepting plugin is plugin `q`, in
/// order: what plugin `q` is handed.
pub open spec fn files_for_plugin(
    parsed: Seq<ParsedFile>,
    plugins: Seq<&'static dyn LanguagePlugin>,
    q: int,
    n: int,
) -> Seq<ParsedFile>
    decreases n,
{
    if n <= 0 {
        Seq::empty()
    } else if first_accepting(plugins, parsed[n - 1].relative_path@) == Some(q) {
        files_for_plugin(parsed, plugins, q, n - 1).push(parsed[n - 1])
    } else {
        files_for_plugin(parsed, plugins, q, n - 1)
    }
}

/// Whether `symbols` are what dispatching `parsed` over `plugins` gives: one answer per
/// plugin, in plugin order, each the plugin's answer on exactly the files it is the first
/// to accept, and nothing from a plugin that is first for no file.
pub open spec fn dispatched_symbols(
    parsed: Seq<ParsedFile>,
    plugins: Seq<&'static dyn LanguagePlugin>,
    symbols: Seq<ExtractedSymbol>,
) -> bool {
    exists|outs: Seq<Seq<ExtractedSymbol>>|
        #![trigger outs.flatten()]
        outs.len() == plugins.len() && symbols == outs.flatten() && forall|q: int|
            0 <= q < outs.len() ==> if files_for_plugin(parsed, plugins, q, parsed.len() as int).len()
                > 0 {
                plugins[q].repository_symbols_of(
                    files_for_plugin(parsed, plugins, q, parsed.len() as int),
                    #[trigger] outs[q],
                )
            } else {
                outs[q].len() == 0
            }
}

/// The position of the first plugin from position `i` on that accepts `path`, if any.
pub open spec fn first_accepting_from(
    plugins: Seq<&'static dyn LanguagePlugin>,
    path: Seq<char>,
    i: int,
) -> Option<int>
    decreases plugins.len() - i,
{
    if i < 0 || i >= plugins.len() {
        None
    } else if plugins[i].accepts(path) {
        Some(i)
    } else {
        first_accepting_from(plugins, path, i + 1)
    }
}

/// The position of the first plugin that accepts `path`, if any.
pub open spec fn first_accepting(plugins: Seq<&'static dyn LanguagePlugin>, path: Seq<char>) -> Option<
    int,
> {
    first_accepting_from(plugins, path, 0)
}

/// The positions among the first `n` files whose path some plugin accepts, in order.
pub open spec fn accepted_positions(
    files: Seq<File>,
    plugins: Seq<&'static dyn LanguagePlugin>,
    n: int,
) -> Seq<int>
    decreases n,
{
    if n <= 0 {
        Seq::empty()
    } else if first_accepting(plugins, files[n - 1].relative_path@) is Some {
        accepted_positions(files, plugins, n - 1).push(n - 1)
    } else {
        accepted_positions(files, plugins, n - 1)
    }
}

/// Registry of language plugins, in priority order.
pub struct LanguageRegistry {
    plugins: Vec<&'static dyn LanguagePlugin>,
}

impl LanguageRegistry {
    /// The registered plugins, in priority order.
    pub closed spec fn plugins(&self) -> Seq<&'static dyn LanguagePlugin> {
        self.plugins@
    }

    /// Creates an empty language registry.
    pub fn new() -> (r: Self)
        ensures
            r.plugins() == Seq::<&'static dyn LanguagePlugin>::empty(),
    {
        LanguageRegistry { plugins: Vec::new() }
    }

    /// Registers a language plugin after those already registered.
    pub fn register(&mut self, plugin: &'static dyn LanguagePlugin)
        ensures
            final(self).plugins() == old(self).plugins().push(plugin),
    {
        self.plugins.push(plugin);
    }

    /// Registers a language plugin and returns the updated registry.
    pub fn with_plugin(self, plugin: &'static dyn LanguagePlugin) -> (r: Self)
        ensures
            r.plugins() == self.plugins().push(plugin),
    {
        let mut registry = self;
        registry.plugins.push(plugin);
        registry
    }

    /// Returns whether the registry contains no language plugins.
    pub fn is_empty(&self) -> (b: bool)
        ensures
            b == (self.plugins().len() == 0),
    {
        self.plugins.len() == 0
    }

    /// Returns the number of registered language plugins.
    pub fn len(&self) -> (n: usize)
        ensures
            n == self.plugins().len(),
    {
        self.plugins.len()
    }

    /// The position of the first registered plugin that supports the path, if any.
    pub fn plugin_index_for(&self, path: &RelativePath) -> (r: Option<usize>)
        ensures
            match r {
                Some(i) => first_accepting(self.plugins(), path@) == Some(i as int),
                None => first_accepting(self.plugins(), path@) is None,
            },
    {
        let mut i: usize = 0;
        while i < self.plugins.len()
            invariant
                i <= self.plugins@.len(),
                first_accepting(self.plugins(), path@) == first_accepting_from(
                    self.plugins(),
                    path@,
                    i as int,
                ),
            decreases self.plugins@.len() - i,
        {
            if self.plugins[i].supports_path(path.as_str()) {
                return Some(i);
            }
            i += 1;
        }
        None
    }

    /// The first registered plugin that supports the path, if any.
    pub fn plugin_for_relative_path(&self, path: &RelativePath) -> (r: Option<
        &'static dyn LanguagePlugin,
    >)
        ensures
            match first_accepting(self.plugins(), path@) {
                Some(i) => r == Some(self.plugins()[i]),
                None => r is None,
            },
    {
        let mut i: usize = 0;
        while i < self.plugins.len()
            invariant
                i <= self.plugins@.len(),
                first_accepting(self.plugins(), path@) == first_accepting_from(
                    self.plugins(),
                    path@,
                    i as int,
                ),
            decreases self.plugins@.len() - i,
        {
            let plugin = self.plugins[i];
            if plugin.supports_path(path.as_str()) {
                let found = Some(plugin);
                assert(found == Some(self.plugins()[i as int]));
                return found;
            }
            i += 1;
        }
        None
    }
}

/// The parse error for a plugin failure on the file at `path`.
pub fn map_plugin_error(error: LanguagePluginError, path: RelativePath, language: LanguageId) -> (r:
    ParseError)
    ensures
        match error {
            LanguagePluginError::ConfigureParser { .. } => r matches ParseError::ConfigureParser {
                path: p,
                language: l,
                ..
            } && p@ == path@ && l == language,
            LanguagePluginError::ParseReturnedNone => r matches ParseError::ParseReturnedNone {
                path: p,
                language: l,
            } && p@ == path@ && l == language,
        },
{
    match error {
        LanguagePluginError::ConfigureParser { source } => ParseError::ConfigureParser {
            path,
            language,
            source,
        },
        LanguagePluginError::ParseReturnedNone => ParseError::ParseReturnedNone { path, language },
    }
}

/// Parses the source text of a scanned file with a plugin: the parsed file, or the
/// plugin's failure, or `SyntaxErrors` when the tree holds a syntax error.
pub fn parse_scanned_file(plugin: &'static dyn LanguagePlugin, file: &File, source_text: String) -> (r:
    Result<ParsedFile, ParseError>)
    ensures
        match r {
            Ok(parsed) => parsed.file_id == file.id && parsed.relative_path@ == file.relative_path@
                && parsed.source_text == source_text && parsed.language@ == plugin.language_name(),
            Err(e) => match e {
                ParseError::ConfigureParser { path, language, .. } => path@ == file.relative_path@
                    && language@ == plugin.language_name(),
                ParseError::ParseReturnedNone { path, language } => path@ == file.relative_path@
                    && language@ == plugin.language_name(),
                ParseError::SyntaxErrors { path, language } => path@ == file.relative_path@
                    && language@ == plugin.language_name(),
                ParseError::ReadSource { .. } => false,
            },
        },
{
    let language = plugin.language();
    let tree = match plugin.parse_source(source_text.as_str()) {
        Ok(tree) => tree,
        Err(error) => {
            return Err(map_plugin_error(error, file.relative_path.duplicate(), language));
        },
    };
    if tree_has_error(&tree) {
        return Err(ParseError::SyntaxErrors { path: file.relative_path.duplicate(), language });
    }
    Ok(
        ParsedFile {
            file_id: file.id,
            relative_path: file.relative_path.duplicate(),
            language,
            source_text,
            tree,
        },
    )
}

/// Parses the scanned files that a registered plugin supports, in scan order, reading
/// each one's source text with `read_source` just before parsing it. Stops at the first
/// file that cannot be read or parsed.
pub fn parse_repository_scan<F: Fn(&RelativePath) -> Result<String, std::io::Error>>(
    scan: &RepositoryScan,
    registry: &LanguageRegistry,
    read_source: F,
) -> (r: Result<Vec<ParsedFile>, ParseError>)
    requires
        forall|p: &RelativePath| read_source.requires((p,)),
    ensures
        match r {
            Ok(parsed) => {
                &&& parsed_in_scan_order(
                    parsed@,
                    scan.files@,
                    accepted_positions(scan.files@, registry.plugins(), scan.files@.len() as int),
                )
                &&& sources_read(
                    read_source,
                    parsed@,
                    scan.files@,
                    accepted_positions(scan.files@, registry.plugins(), scan.files@.len() as int),
                )
            },
            Err(e) => exists|i: int|
                0 <= i < scan.files@.len() && parse_error_path(e) == scan.files@[i].relative_path@
                    && first_accepting(registry.plugins(), scan.files@[i].relative_path@) is Some
                    && earlier_sources_read(read_source, scan.files@, registry.plugins(), i)
                    && (e matches ParseError::ReadSource { source, .. } ==> read_source.ensures(
                    (&scan.files@[i].relative_path,),
                    Err(source),
                )),
        },
        registry.plugins().len() == 0 ==> (r matches Ok(parsed) && parsed@.len() == 0),
{
    let mut parsed: Vec<ParsedFile> = Vec::new();
    let ghost mut picked: Seq<int> = Seq::empty();
    let mut i: usize = 0;
    while i < scan.files.len()
        invariant
            i <= scan.files@.len(),
            forall|p: &RelativePath| read_source.requires((p,)),
            picked == accepted_positions(scan.files@, registry.plugins(), i as int),
            parsed_in_scan_order(parsed@, scan.files@, picked),
            sources_read(read_source, parsed@, scan.files@, picked),
            forall|k: int| 0 <= k < picked.len() ==> picked[k] < i,
            registry.plugins().len() == 0 ==> parsed@.len() == 0,
        decreases scan.files@.len() - i,
    {
        let file = &scan.files[i];
        let plugin = match registry.plugin_for_relative_path(&file.relative_path) {
            Some(plugin) => plugin,
            None => {
                i += 1;
                continue;
            },
        };
        let source_text = match read_source(&file.relative_path) {
            Ok(text) => text,
            Err(source) => {
                let e = ParseError::ReadSource { path: file.relative_path.duplicate(), source };
                assert(parse_error_path(e) == scan.files@[i as int].relative_path@);
                proof {
                    lemma_earlier_sources_read(
                        read_source,
                        parsed@,
                        scan.files@,
                        registry.plugins(),
                        i as int,
                    );
                }
                return Err(e);
            },
        };
        let parsed_file = match parse_scanned_file(plugin, file, source_text) {
            Ok(parsed_file) => parsed_file,
            Err(e) => {
                assert(parse_error_path(e) == scan.files@[i as int].relative_path@);
                proof {
                    lemma_earlier_sources_read(
                        read_source,
                        parsed@,
                        scan.files@,
                        registry.plugins(),
                        i as int,
                    );
                }
                return Err(e);
            },
        };
        proof {
            picked = picked.push(i as int);
        }
        parsed.push(parsed_file);
        i += 1;
    }
    assert(parsed_in_scan_order(parsed@, scan.files@, picked));
    assert(sources_read(read_source, parsed@, scan.files@, picked));
    let r: Result<Vec<ParsedFile>, ParseError> = Ok(parsed);
    assert(r->Ok_0 == parsed);
    r
}

/// Every file before position `i` that some plugin accepts was read successfully: the
/// files a parse reached before it stopped.
pub open spec fn earlier_sources_read<F: Fn(&RelativePath) -> Result<String, std::io::Error>>(
    read_source: F,
    files: Seq<File>,
    plugins: Seq<&'static dyn LanguagePlugin>,
    i: int,
) -> bool {
    forall|j: int|
        0 <= j < i && #[trigger] first_accepting(plugins, files[j].relative_path@) is Some ==> exists|
            t: String,
        | read_source.ensures((&files[j].relative_path,), Ok::<String, std::io::Error>(t))
}

/// Each position below `n` whose file some plugin accepts is among the accepted positions.
proof fn lemma_accepted_positions_member(
    files: Seq<File>,
    plugins: Seq<&'static dyn LanguagePlugin>,
    n: int,
    j: int,
)
    requires
        0 <= j < n <= files.len(),
        first_accepting(plugins, files[j].relative_path@) is Some,
    ensures
        exists|k: int|
            0 <= k < accepted_positions(files, plugins, n).len() && accepted_positions(
                files,
                plugins,
                n,
            )[k] == j,
    decreases n,
{
    let a = accepted_positions(files, plugins, n);
    if j == n - 1 {
        assert(a.last() == j);
        assert(a[a.len() - 1] == j);
    } else {
        lemma_accepted_positions_member(files, plugins, n - 1, j);
        let prev = accepted_positions(files, plugins, n - 1);
        let k = choose|k: int| 0 <= k < prev.len() && prev[k] == j;
        assert(a[k] == j);
    }
}

/// The files a parse has read so far were read successfully.
proof fn lemma_earlier_sources_read<F: Fn(&RelativePath) -> Result<String, std::io::Error>>(
    read_source: F,
    parsed: Seq<ParsedFile>,
    files: Seq<File>,
    plugins: Seq<&'static dyn LanguagePlugin>,
    i: int,
)
    requires
        0 <= i <= files.len(),
        parsed_in_scan_order(parsed, files, accepted_positions(files, plugins, i)),
        sources_read(read_source, parsed, files, accepted_positions(files, plugins, i)),
    ensures
        earlier_sources_read(read_source, files, plugins, i),
{
    let picked = accepted_positions(files, plugins, i);
    assert forall|j: int|
        0 <= j < i && #[trigger] first_accepting(plugins, files[j].relative_path@) is Some implies exists|
            t: String,
        | read_source.ensures((&files[j].relative_path,), Ok::<String, std::io::Error>(t)) by {
        lemma_accepted_positions_member(files, plugins, i, j);
        let k = choose|k: int| 0 <= k < picked.len() && picked[k] == j;
        assert(read_source.ensures(
            (&files[picked[k]].relative_path,),
            Ok::<String, std::io::Error>(parsed[k].source_text),
        ));
    }
}

/// Each parsed file's source text is what `read_source` gave for its path.
pub open spec fn sources_read<F: Fn(&RelativePath) -> Result<String, std::io::Error>>(
    read_source: F,
    parsed: Seq<ParsedFile>,
    files: Seq<File>,
    picked: Seq<int>,
) -> bool {
    forall|k: int|
        0 <= k < parsed.len() ==> read_source.ensures(
            (&files[picked[k]].relative_path,),
            Ok::<String, std::io::Error>(#[trigger] parsed[k].source_text),
        )
}

/// The path a parse error names.
pub open spec fn parse_error_path(e: ParseError) -> Seq<char> {
    match e {
        ParseError::ConfigureParser { path, .. } => path@,
        ParseError::ReadSource { path, .. } => path@,
        ParseError::ParseReturnedNone { path, .. } => path@,
        ParseError::SyntaxErrors { path, .. } => path@,
    }
}

/// Each parsed file is the scanned file at the matching position of `picked`, and those
/// positions rise strictly: the parsed files follow the scan's order, each file once.
pub open spec fn parsed_in_scan_order(parsed: Seq<ParsedFile>, files: Seq<File>, picked: Seq<int>) -> bool {
    &&& picked.len() == parsed.len()
    &&& forall|k: int|
        0 <= k < picked.len() ==> 0 <= #[trigger] picked[k] < files.len() && parsed[k].file_id
            == files[picked[k]].id && parsed[k].relative_path@ == files[picked[k]].relative_path@
    &&& forall|a: int, b: int| 0 <= a < b < picked.len() ==> picked[a] < picked[b]
}

/// The symbols of the parsed files, plugin by plugin in registration order: each
/// plugin reads together the files whose paths it is the first to support, and a plugin
/// that is first for no file adds nothing.
pub fn extract_repository_symbols(parsed_files: &Vec<ParsedFile>, registry: &LanguageRegistry) -> (r: Vec<
    ExtractedSymbol,
>)
    ensures
        dispatched_symbols(parsed_files@, registry.plugins(), r@),
        registry.plugins().len() == 0 ==> r@.len() == 0,
        parsed_files@.len() == 0 ==> r@.len() == 0,
{
    let ghost plugins = registry.plugins();
    let ghost n = parsed_files@.len() as int;
    let mut symbols: Vec<ExtractedSymbol> = Vec::new();
    let ghost mut outs: Seq<Seq<ExtractedSymbol>> = Seq::empty();
    let mut p: usize = 0;
    while p < registry.plugins.len()
        invariant
            p <= registry.plugins@.len(),
            plugins == registry.plugins(),
            n == parsed_files@.len(),
            outs.len() == p,
            symbols@ == outs.flatten(),
            forall|q: int|
                0 <= q < outs.len() ==> if files_for_plugin(parsed_files@, plugins, q, n).len() > 0 {
                    plugins[q].repository_symbols_of(
                        files_for_plugin(parsed_files@, plugins, q, n),
                        #[trigger] outs[q],
                    )
                } else {
                    outs[q].len() == 0
                },
            registry.plugins().len() == 0 ==> symbols@.len() == 0,
            parsed_files@.len() == 0 ==> symbols@.len() == 0,
        decreases registry.plugins@.len() - p,
    {
        let mut group: Vec<&ParsedFile> = Vec::new();
        let mut i: usize = 0;
        while i < parsed_files.len()
            invariant
                i <= parsed_files@.len(),
                p < registry.plugins@.len(),
                plugins == registry.plugins(),
                file_values(group@) == files_for_plugin(parsed_files@, plugins, p as int, i as int),
            decreases parsed_files@.len() - i,
        {
            let ghost before = group@;
            if registry.plugin_index_for(&parsed_files[i].relative_path) == Some(p) {
                group.push(&parsed_files[i]);
                assert(file_values(group@) =~= file_values(before).push(parsed_files@[i as int]));
            }
            i += 1;
        }
        assert(group@.len() == file_values(group@).len());
        let ghost before = symbols@;
        let ghost out: Seq<ExtractedSymbol> = Seq::empty();
        if group.len() > 0 {
            let plugin = registry.plugins[p];
            assert(plugin == plugins[p as int]);
            let mut found = plugin.extract_repository_symbols(&group);
            proof {
                out = found@;
            }
            symbols.append(&mut found);
        }
        proof {
            outs.lemma_flatten_push(out);
            assert(symbols@ =~= before + out);
            let prev = outs;
            outs = outs.push(out);
            assert forall|q: int| 0 <= q < outs.len() implies if files_for_plugin(
                parsed_files@,
                plugins,
                q,
                n,
            ).len() > 0 {
                plugins[q].repository_symbols_of(
                    files_for_plugin(parsed_files@, plugins, q, n),
                    #[trigger] outs[q],
                )
            } else {
                outs[q].len() == 0
            } by {
                if q < prev.len() {
                    assert(outs[q] == prev[q]);
                }
            }
        }
        p += 1;
    }
    proof {
        if parsed_files@.len() == 0 {
            assert forall|q: int| 0 <= q < outs.len() implies outs[q].len() == 0 by {
                assert(files_for_plugin(parsed_files@, plugins, q, n).len() == 0);
            }
        }
    }
    symbols
}

} // verus!
