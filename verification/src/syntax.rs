//! Rust syntax trees from tree-sitter, and the plain model of their items that symbol
//! extraction reads.

use tree_sitter::{Language, LanguageError, Node, Parser, Tree};
use vstd::prelude::*;
use vstd::string::*;

verus! {

/// The syntax tree type of tree-sitter, carried through as an opaque value.
#[verifier::external_type_specification]
#[verifier::external_body]
pub struct ExTree(Tree);

/// A node of a tree-sitter syntax tree, carried through as an opaque value.
#[verifier::external_type_specification]
#[verifier::external_body]
pub struct ExNode<'a>(Node<'a>);

/// The parser type of tree-sitter, carried through as an opaque value.
#[verifier::external_type_specification]
#[verifier::external_body]
pub struct ExParser(Parser);

/// A tree-sitter grammar, carried through as an opaque value.
#[verifier::external_type_specification]
#[verifier::external_body]
pub struct ExLanguage(Language);

/// The error of assigning an incompatible grammar to a tree-sitter parser.
#[verifier::external_type_specification]
#[verifier::external_body]
pub struct ExLanguageError(LanguageError);

/// A line and column in a source text, both counted from zero.
#[derive(Clone, Copy, Debug, PartialEq, Eq, Structural)]
pub struct SourcePosition {
    pub line: usize,
    pub column: usize,
}

impl SourcePosition {
    /// A position at `line` and `column`.
    pub fn new(line: usize, column: usize) -> (p: Self)
        ensures
            p.line == line && p.column == column,
    {
        SourcePosition { line, column }
    }
}

/// The extent of a definition in its source text: a byte range and its positions.
#[derive(Clone, Copy, Debug, PartialEq, Eq, Structural)]
pub struct SourceSpan {
    pub start_byte: usize,
    pub end_byte: usize,
    pub start: SourcePosition,
    pub end: SourcePosition,
}

impl SourceSpan {
    /// The empty span at the first byte of a file.
    pub open spec fn start_of_file() -> SourceSpan {
        SourceSpan {
            start_byte: 0,
            end_byte: 0,
            start: SourcePosition { line: 0, column: 0 },
            end: SourcePosition { line: 0, column: 0 },
        }
    }

    /// A span over the bytes `start_byte..end_byte` from `start` to `end`.
    pub fn new(start_byte: usize, end_byte: usize, start: SourcePosition, end: SourcePosition) -> (s:
        Self)
        ensures
            s.start_byte == start_byte && s.end_byte == end_byte && s.start == start && s.end
                == end,
    {
        SourceSpan { start_byte, end_byte, start, end }
    }
}

/// `tree_sitter_rust::LANGUAGE` as a `tree_sitter::Language`: the Rust grammar.
#[verifier::external_body]
pub(crate) fn rust_language() -> Language {
    tree_sitter_rust::LANGUAGE.into()
}

/// `Parser::new`: a parser that has no grammar yet.
#[verifier::external_body]
pub(crate) fn new_parser() -> Parser {
    Parser::new()
}

/// `Parser::set_language`: assigns a grammar, or reports a version mismatch of the
/// grammar; nothing is stated of which happens.
#[verifier::external_body]
pub(crate) fn set_parser_language(parser: &mut Parser, language: &Language) -> Result<
    (),
    LanguageError,
> {
    parser.set_language(language)
}

/// `Parser::parse` on a whole text with no earlier tree: the tree, or nothing when the
/// parser could not produce one; nothing is stated of the tree.
#[verifier::external_body]
pub(crate) fn parse_text(parser: &mut Parser, text: &str) -> Option<Tree> {
    parser.parse(text, None)
}

/// `Tree::root_node`.
#[verifier::external_body]
pub(crate) fn tree_root<'a>(tree: &'a Tree) -> Node<'a> {
    tree.root_node()
}

/// `Node::kind`: the grammar name of a node's type.
#[verifier::external_body]
pub(crate) fn node_kind(node: &Node) -> &'static str {
    node.kind()
}

/// `Node::has_error`: whether a node is or contains a syntax error.
#[verifier::external_body]
pub(crate) fn node_has_error(node: &Node) -> bool {
    node.has_error()
}

/// `Node::named_child_count`.
#[verifier::external_body]
pub(crate) fn node_named_child_count(node: &Node) -> usize {
    node.named_child_count()
}

/// `Node::named_child`: the named child at position `i`, if there is one.
#[verifier::external_body]
pub(crate) fn node_named_child<'a>(node: &Node<'a>, i: usize) -> Option<Node<'a>> {
    node.named_child(i)
}

/// `Node::child_by_field_name`: the first child in the field `name`, if any.
#[verifier::external_body]
pub(crate) fn node_field<'a>(node: &Node<'a>, name: &str) -> Option<Node<'a>> {
    node.child_by_field_name(name)
}

/// `Node::descendant_count`: the number of nodes in a node's subtree, itself included.
#[verifier::external_body]
pub(crate) fn node_descendant_count(node: &Node) -> usize {
    node.descendant_count()
}

/// `Node::range`: a node's byte range and its start and end rows and columns, each field
/// moved into a `SourceSpan`.
#[verifier::external_body]
pub(crate) fn node_range(node: &Node) -> SourceSpan {
    let range = node.range();
    SourceSpan {
        start_byte: range.start_byte,
        end_byte: range.end_byte,
        start: SourcePosition { line: range.start_point.row, column: range.start_point.column },
        end: SourcePosition { line: range.end_point.row, column: range.end_point.column },
    }
}

proof fn lemma_boundary_in_prefix(b: Seq<u8>, s: int, e: int)
    requires
        vstd::utf8::valid_utf8(b),
        0 <= s <= e <= b.len(),
        vstd::utf8::is_char_boundary(b, e),
        vstd::utf8::is_char_boundary(b, s),
    ensures
        vstd::utf8::is_char_boundary(b.subrange(0, e), s),
{
    let h = b.subrange(0, e);
    vstd::utf8::valid_utf8_split(b, e);
    if s == e {
        vstd::utf8::is_char_boundary_start_end_of_seq(h);
        assert(h.len() == e);
    } else if s > 0 {
        vstd::utf8::is_char_boundary_iff_not_is_continuation_byte(b, s);
        vstd::utf8::is_char_boundary_iff_not_is_continuation_byte(h, s);
        assert(h[s] == b[s]);
    }
}

/// The text of `source` between the byte offsets `start` and `end`, when that range lies
/// within the text and begins and ends on character boundaries.
pub fn text_between(source: &str, start: usize, end: usize) -> (r: Option<String>)
    ensures
        match r {
            Some(t) => {
                &&& start <= end <= source.spec_bytes().len()
                &&& vstd::utf8::is_char_boundary(source.spec_bytes(), start as int)
                &&& vstd::utf8::is_char_boundary(source.spec_bytes(), end as int)
                &&& vstd::utf8::encode_utf8(t@) == source.spec_bytes().subrange(
                    start as int,
                    end as int,
                )
            },
            None => !(start <= end <= (source.spec_bytes().len() as usize)
                && vstd::utf8::is_char_boundary(
                source.spec_bytes(),
                start as int,
            ) && vstd::utf8::is_char_boundary(source.spec_bytes(), end as int)),
        },
{
    if start <= end && end <= source.len() && source.is_char_boundary(end)
        && source.is_char_boundary(start) {
        let (head, _) = source.split_at(end);
        assert(head.spec_bytes() =~= source.spec_bytes().subrange(0, end as int));
        proof {
            vstd::utf8::encode_utf8_valid_utf8(source@);
            lemma_boundary_in_prefix(source.spec_bytes(), start as int, end as int);
        }
        let (_, piece) = head.split_at(start);
        assert(piece.spec_bytes() =~= source.spec_bytes().subrange(start as int, end as int));
        let owned = piece.to_owned();
        assert(owned@ == piece@);
        assert(vstd::utf8::encode_utf8(owned@) == piece.spec_bytes());
        Some(owned)
    } else {
        None
    }
}


/// An item of a Rust syntax tree as symbol extraction reads it: its grammar kind, the
/// texts of its `name`, `type` and `trait` fields, the items of its `body` field, its
/// extent, and, for a `use` declaration, its whole text. `type_text` is absent when the
/// `type` field, or a `trait` field that is present, cannot be read.
#[derive(Debug)]
pub struct SyntaxItem {
    pub kind: String,
    pub name: Option<String>,
    pub type_text: Option<String>,
    pub trait_text: Option<String>,
    pub body: Option<Vec<SyntaxItem>>,
    pub span: SourceSpan,
    pub text: Option<String>,
}

/// Whether `t` is a piece of `source`: the text between two character boundaries.
pub open spec fn source_piece(source: Seq<char>, t: Seq<char>) -> bool {
    let bytes = vstd::utf8::encode_utf8(source);
    exists|a: int, b: int|
        0 <= a <= b <= bytes.len() && vstd::utf8::is_char_boundary(bytes, a)
            && vstd::utf8::is_char_boundary(bytes, b) && #[trigger] vstd::utf8::encode_utf8(t)
            == #[trigger] bytes.subrange(a, b)
}

/// Whether an optional text is absent or a piece of `source`.
pub open spec fn optional_piece(source: Seq<char>, t: Option<String>) -> bool {
    match t {
        Some(t) => source_piece(source, t@),
        None => true,
    }
}

/// Whether `item` was read out of `source`: each text it holds is a piece of the source,
/// only a `use` declaration holds its whole text, and its body items were read so too.
pub open spec fn item_read_from(item: SyntaxItem, source: Seq<char>) -> bool
    decreases item, 0nat,
{
    &&& optional_piece(source, item.name)
    &&& optional_piece(source, item.type_text)
    &&& optional_piece(source, item.trait_text)
    &&& optional_piece(source, item.text)
    &&& (item.text is Some ==> item.kind@ == "use_declaration"@)
    &&& match item.body {
        Some(b) => items_read_from(b@, source),
        None => true,
    }
}

/// Whether every item of `items` was read out of `source`.
pub open spec fn items_read_from(items: Seq<SyntaxItem>, source: Seq<char>) -> bool
    decreases items, 1nat,
{
    if items.len() == 0 {
        true
    } else {
        items_read_from(items.drop_last(), source) && item_read_from(items.last(), source)
    }
}

/// The text of a node within `source`.
fn node_text(node: &Node, source: &str) -> (r: Option<String>)
    ensures
        optional_piece(source@, r),
{
    let range = node_range(node);
    text_between(source, range.start_byte, range.end_byte)
}

/// The text of the node in the field `field` of `node`.
fn field_text(node: &Node, field: &str, source: &str) -> (r: Option<String>)
    ensures
        optional_piece(source@, r),
{
    match node_field(node, field) {
        Some(child) => node_text(&child, source),
        None => None,
    }
}

/// The model of one node; `fuel` bounds how deep its body items are read.
fn syntax_item(node: &Node, source: &str, fuel: usize) -> (item: SyntaxItem)
    ensures
        item_read_from(item, source@),
        fuel == 0 ==> item.body is None,
    decreases fuel, 0nat,
{
    let kind = node_kind(node).to_owned();
    let name = field_text(node, "name", source);
    let trait_node = node_field(node, "trait");
    let (trait_present, trait_text) = match trait_node {
        Some(t) => (true, node_text(&t, source)),
        None => (false, None),
    };
    let type_text = if trait_present && trait_text.is_none() {
        None
    } else {
        field_text(node, "type", source)
    };
    let body = if fuel == 0 {
        None
    } else {
        match node_field(node, "body") {
            Some(b) => Some(syntax_items(&b, source, fuel - 1)),
            None => None,
        }
    };
    let text = if crate::text::chars_equal(
        &crate::text::chars_of(kind.as_str()),
        &crate::text::chars_of("use_declaration"),
    ) {
        node_text(node, source)
    } else {
        None
    };
    SyntaxItem { kind, name, type_text, trait_text, body, span: node_range(node), text }
}

/// The models of the named children of `node`, in order.
fn syntax_items(node: &Node, source: &str, fuel: usize) -> (items: Vec<SyntaxItem>)
    ensures
        items_read_from(items@, source@),
    decreases fuel, 1nat,
{
    let mut items: Vec<SyntaxItem> = Vec::new();
    let count = node_named_child_count(node);
    let mut i: usize = 0;
    while i < count
        invariant
            items_read_from(items@, source@),
        decreases count - i,
    {
        if let Some(child) = node_named_child(node, i) {
            let item = syntax_item(&child, source, fuel);
            let ghost before = items@;
            items.push(item);
            assert(items@.drop_last() =~= before);
        }
        i += 1;
    }
    items
}

/// The items of a whole syntax tree parsed from `source`: the models of the root's named
/// children. Bodies are read as deep as the root's descendant count, which tree-sitter
/// reports as the number of nodes in the tree; nothing here proves that this reaches every
/// body, and the contract states only that each text read is a piece of `source`.
pub fn tree_items(tree: &Tree, source: &str) -> (items: Vec<SyntaxItem>)
    ensures
        items_read_from(items@, source@),
{
    let root = tree_root(tree);
    let fuel = node_descendant_count(&root);
    syntax_items(&root, source, fuel)
}

/// Whether a tree contains a syntax error anywhere.
pub fn tree_has_error(tree: &Tree) -> bool {
    node_has_error(&tree_root(tree))
}

/// The grammar kind of a tree's root node.
pub fn root_kind(tree: &Tree) -> String {
    node_kind(&tree_root(tree)).to_owned()
}

} // verus!
