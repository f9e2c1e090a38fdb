//! Building a [`SyntaxTree`] from tree-sitter's TypeScript and TSX grammars.
//!
//! tree-sitter numbers the nodes of a tree in pre-order (`TreeCursor::goto_descendant`);
//! what it reports of the node at each position is named below over the source text,
//! the grammar and the position, and the tree is copied node by node from those reports.
use crate::syntax::{SyntaxNode, SyntaxTree};
use crate::text::str_get;
use vstd::prelude::*;
use vstd::utf8::{encode_utf8, is_char_boundary};

verus! {

#[verifier::external_type_specification]
#[verifier::external_body]
pub struct ExTree(tree_sitter::Tree);

/// `Node::descendant_count` of the node at pre-order position `i` of the tree that
/// tree-sitter builds for `source` (with the TSX grammar when `tsx`): the node itself and
/// every node below it.
pub uninterp spec fn ts_descendants(source: Seq<char>, tsx: bool, i: int) -> nat;

/// `TreeCursor::goto_parent` from the node at position `i`: whether it has a parent.
pub uninterp spec fn ts_has_parent(source: Seq<char>, tsx: bool, i: int) -> bool;

/// `TreeCursor::descendant_index` after `goto_parent` from position `i`: the parent's position.
pub uninterp spec fn ts_parent_index(source: Seq<char>, tsx: bool, i: int) -> nat;

/// `Node::kind` of the node at position `i`.
pub uninterp spec fn ts_kind(source: Seq<char>, tsx: bool, i: int) -> Seq<char>;

/// `Node::is_named` of the node at position `i`.
pub uninterp spec fn ts_named(source: Seq<char>, tsx: bool, i: int) -> bool;

/// `Node::is_extra` of the node at position `i`.
pub uninterp spec fn ts_extra(source: Seq<char>, tsx: bool, i: int) -> bool;

/// `TreeCursor::field_name` at position `i`: the field under which the node hangs.
pub uninterp spec fn ts_field(source: Seq<char>, tsx: bool, i: int) -> Option<Seq<char>>;

/// `Node::start_byte` of the node at position `i`.
pub uninterp spec fn ts_start_byte(source: Seq<char>, tsx: bool, i: int) -> nat;

/// `Node::end_byte` of the node at position `i`.
pub uninterp spec fn ts_end_byte(source: Seq<char>, tsx: bool, i: int) -> nat;

/// The row of `Node::start_position` of the node at position `i`.
pub uninterp spec fn ts_start_row(source: Seq<char>, tsx: bool, i: int) -> nat;

/// The row of `Node::end_position` of the node at position `i`.
pub uninterp spec fn ts_end_row(source: Seq<char>, tsx: bool, i: int) -> nat;

/// How tree-sitter numbers the nodes of a tree in pre-order: the root is position 0 and
/// its count covers the whole tree; the subtree of the node at `i` is the positions
/// `i .. i + ts_descendants(i)`, so subtrees nest; the root has no parent, and every other
/// node's parent comes before it and holds it in its subtree.  (tree-sitter's
/// `ts_tree_cursor_goto_descendant` walks down by these ranges, and
/// `ts_node_descendant_count` adds one for the node to its visible descendants and returns
/// a `uint32_t`, so no tree numbers more than `u32::MAX` nodes.)
pub open spec fn preorder_numbering(s: Seq<char>, tsx: bool) -> bool {
    let n = ts_descendants(s, tsx, 0) as int;
    &&& 1 <= n <= u32::MAX
    &&& forall|i: int| 0 <= i < n ==> 1 <= #[trigger] ts_descendants(s, tsx, i) && i + ts_descendants(s, tsx, i) <= n
    &&& forall|i: int, j: int|
        #![trigger ts_descendants(s, tsx, i), ts_descendants(s, tsx, j)]
        0 <= i < j < i + ts_descendants(s, tsx, i) ==> j + ts_descendants(s, tsx, j) <= i + ts_descendants(s, tsx, i)
    &&& !ts_has_parent(s, tsx, 0)
    &&& forall|j: int| 0 < j < n ==> {
        &&& #[trigger] ts_has_parent(s, tsx, j)
        &&& ts_parent_index(s, tsx, j) < j < ts_parent_index(s, tsx, j) + ts_descendants(s, tsx, ts_parent_index(s, tsx, j) as int)
    }
}

/// A source text with the tree that tree-sitter built for it; made only by the two
/// parsing wrappers below.
struct ParsedSource {
    tree: tree_sitter::Tree,
    source: String,
    tsx: bool,
}

/// tree-sitter's `Parser::new`, `Parser::set_language` with
/// `tree_sitter_typescript::LANGUAGE_TYPESCRIPT`, and `Parser::parse` of the whole text
/// with no earlier tree.  The bundled grammar has ABI version 14, inside the range 13..=14
/// that `set_language` accepts, and `parse` returns no tree only without a language, after
/// a timeout or on a cancellation flag, none of which is set here: so a tree always comes
/// back, numbered as `preorder_numbering` says.
#[verifier::external_body]
fn parse_typescript_source(source: &str) -> (r: Option<ParsedSource>)
    ensures
        r is Some,
        r matches Some(p) ==> p.source@ == source@ && !p.tsx && preorder_numbering(source@, false),
{
    let mut parser = tree_sitter::Parser::new();
    match parser.set_language(&tree_sitter_typescript::LANGUAGE_TYPESCRIPT.into()) {
        Ok(()) => match parser.parse(source, None) {
            Some(tree) => Some(ParsedSource { tree, source: source.to_owned(), tsx: false }),
            None => None,
        },
        Err(_) => None,
    }
}

/// The same three calls as `parse_typescript_source`, with
/// `tree_sitter_typescript::LANGUAGE_TSX` (also of ABI version 14).
#[verifier::external_body]
fn parse_tsx_source(source: &str) -> (r: Option<ParsedSource>)
    ensures
        r is Some,
        r matches Some(p) ==> p.source@ == source@ && p.tsx && preorder_numbering(source@, true),
{
    let mut parser = tree_sitter::Parser::new();
    match parser.set_language(&tree_sitter_typescript::LANGUAGE_TSX.into()) {
        Ok(()) => match parser.parse(source, None) {
            Some(tree) => Some(ParsedSource { tree, source: source.to_owned(), tsx: true }),
            None => None,
        },
        Err(_) => None,
    }
}

/// At pre-order position `i` (`Tree::walk`, `TreeCursor::goto_descendant`):
/// `Node::descendant_count`, then `TreeCursor::goto_parent` and
/// `TreeCursor::descendant_index`.
#[verifier::external_body]
fn node_shape(p: &ParsedSource, i: usize) -> (r: (usize, bool, usize))
    requires
        i < ts_descendants(p.source@, p.tsx, 0),
    ensures
        r.0 == ts_descendants(p.source@, p.tsx, i as int),
        r.1 == ts_has_parent(p.source@, p.tsx, i as int),
        r.2 == ts_parent_index(p.source@, p.tsx, i as int),
{
    let mut c = p.tree.walk();
    c.goto_descendant(i);
    let size = c.node().descendant_count();
    let moved = c.goto_parent();
    (size, moved, c.descendant_index())
}

/// At pre-order position `i`: `Node::kind`, `Node::is_named`, `Node::is_extra` and
/// `TreeCursor::field_name`.
#[verifier::external_body]
fn node_labels(p: &ParsedSource, i: usize) -> (r: (String, bool, bool, Option<String>))
    requires
        i < ts_descendants(p.source@, p.tsx, 0),
    ensures
        r.0@ == ts_kind(p.source@, p.tsx, i as int),
        r.1 == ts_named(p.source@, p.tsx, i as int),
        r.2 == ts_extra(p.source@, p.tsx, i as int),
        field_view(r.3) == ts_field(p.source@, p.tsx, i as int),
{
    let mut c = p.tree.walk();
    c.goto_descendant(i);
    let field = match c.field_name() {
        Some(f) => Some(f.to_owned()),
        None => None,
    };
    let n = c.node();
    (n.kind().to_owned(), n.is_named(), n.is_extra(), field)
}

/// At pre-order position `i`: `Node::start_byte`, `Node::end_byte` and the rows of
/// `Node::start_position` and `Node::end_position`.
#[verifier::external_body]
fn node_span(p: &ParsedSource, i: usize) -> (r: (usize, usize, usize, usize))
    requires
        i < ts_descendants(p.source@, p.tsx, 0),
    ensures
        r.0 == ts_start_byte(p.source@, p.tsx, i as int),
        r.1 == ts_end_byte(p.source@, p.tsx, i as int),
        r.2 == ts_start_row(p.source@, p.tsx, i as int),
        r.3 == ts_end_row(p.source@, p.tsx, i as int),
{
    let mut c = p.tree.walk();
    c.goto_descendant(i);
    let n = c.node();
    (n.start_byte(), n.end_byte(), n.start_position().row, n.end_position().row)
}

/// Reasons why a source text could not be turned into a syntax tree.
#[derive(Debug, Clone, Copy, PartialEq, Eq)]
pub enum ParseError {
    /// The parser returned no tree.
    NoTree,
    /// The tree has as many nodes as the largest `usize`.
    TooLarge,
}

/// A field name as characters.
pub open spec fn field_view(f: Option<String>) -> Option<Seq<char>> {
    match f {
        Some(x) => Some(x@),
        None => None,
    }
}

/// Bytes `a .. b` of the UTF-8 form of `s` form a piece of text.
pub open spec fn span_ok(s: Seq<char>, a: nat, b: nat) -> bool {
    &&& a <= b <= encode_utf8(s).len()
    &&& is_char_boundary(encode_utf8(s), a as int)
    &&& is_char_boundary(encode_utf8(s), b as int)
}

/// A row as kept in a node: rows from the largest two `usize` values down are held at
/// `usize::MAX - 2`.
pub open spec fn fit_row(r: nat) -> usize {
    if r < usize::MAX - 1 {
        r as usize
    } else {
        (usize::MAX - 2) as usize
    }
}

/// `node` is the copy of what tree-sitter reports at position `i` of the tree of `s`:
/// kind, field, named and extra flags as reported; the text is the node's byte span of
/// the source (empty when the span is no piece of text); rows as reported (the end row
/// never before the start row); the subtree ends after `ts_descendants` positions; the
/// parent is tree-sitter's.
pub open spec fn node_from(s: Seq<char>, tsx: bool, i: int, node: SyntaxNode) -> bool {
    let sb = ts_start_byte(s, tsx, i);
    let eb = ts_end_byte(s, tsx, i);
    &&& node.kind@ == ts_kind(s, tsx, i)
    &&& field_view(node.field) == ts_field(s, tsx, i)
    &&& node.named == ts_named(s, tsx, i)
    &&& node.extra == ts_extra(s, tsx, i)
    &&& (span_ok(s, sb, eb) ==> encode_utf8(node.text@) == encode_utf8(s).subrange(sb as int, eb as int))
    &&& (!span_ok(s, sb, eb) ==> node.text@ == Seq::<char>::empty())
    &&& node.start_row == fit_row(ts_start_row(s, tsx, i))
    &&& node.end_row == (if fit_row(ts_end_row(s, tsx, i)) < node.start_row {
        node.start_row
    } else {
        fit_row(ts_end_row(s, tsx, i))
    })
    &&& node.end == i + ts_descendants(s, tsx, i)
    &&& (ts_has_parent(s, tsx, i) ==> node.parent == Some(ts_parent_index(s, tsx, i) as usize))
    &&& (!ts_has_parent(s, tsx, i) ==> node.parent is None)
}

/// `t` is the copy of the tree tree-sitter builds for `s` with the grammar `tsx`
/// selects: one node per pre-order position, in order.
pub open spec fn parsed_from(t: SyntaxTree, s: Seq<char>, tsx: bool) -> bool {
    &&& t.source@ == s
    &&& t.tsx == tsx
    &&& t.len() == ts_descendants(s, tsx, 0)
    &&& forall|i: int| 0 <= i < t.len() ==> node_from(s, tsx, i, #[trigger] t.nodes@[i])
}

/// Parsing `s` with the grammar `tsx` selects gives a tree: its node count stays below
/// the largest `usize`.
pub open spec fn parse_succeeds(s: Seq<char>, tsx: bool) -> bool {
    ts_descendants(s, tsx, 0) < usize::MAX
}

/// A copy of a pre-order-numbered tree is well formed.
proof fn lemma_parsed_wf(t: &SyntaxTree, s: Seq<char>, tsx: bool)
    requires
        parsed_from(*t, s, tsx),
        preorder_numbering(s, tsx),
        t.len() < usize::MAX,
    ensures
        t.wf(),
{
    let n = t.len();
    assert(node_from(s, tsx, 0, t.nodes@[0]));
    assert(ts_descendants(s, tsx, 0) >= 1);
    assert forall|i: int| 0 <= i < n implies i < #[trigger] t.end(i) <= n by {
        assert(node_from(s, tsx, i, t.nodes@[i]));
        assert(1 <= ts_descendants(s, tsx, i));
    }
    assert forall|i: int| 0 <= i < n implies #[trigger] t.nodes@[i].start_row <= t.nodes@[i].end_row < usize::MAX by {
        assert(node_from(s, tsx, i, t.nodes@[i]));
    }
    assert forall|i: int, j: int|
        #![trigger t.end(i), t.end(j)]
        0 <= i < j < t.end(i) && i < n implies t.end(j) <= t.end(i) by {
        assert(node_from(s, tsx, i, t.nodes@[i]));
        assert(1 <= ts_descendants(s, tsx, i));
        assert(node_from(s, tsx, j, t.nodes@[j]));
        assert(j + ts_descendants(s, tsx, j) <= i + ts_descendants(s, tsx, i));
    }
    assert forall|j: int| 0 < j < n implies {
        &&& (#[trigger] t.parent(j)) is Some
        &&& t.parent(j).unwrap() < j < t.end(t.parent(j).unwrap() as int)
    } by {
        assert(node_from(s, tsx, j, t.nodes@[j]));
        assert(ts_has_parent(s, tsx, j));
        let q = ts_parent_index(s, tsx, j) as int;
        assert(node_from(s, tsx, q, t.nodes@[q]));
    }
}

/// Parse `source` with the grammar `tsx` selects (TSX when it holds) and copy the tree.
fn parse_with(source: &str, tsx: bool) -> (r: Result<SyntaxTree, ParseError>)
    ensures
        r is Ok <==> parse_succeeds(source@, tsx),
        r matches Ok(t) ==> t.wf() && parsed_from(t, source@, tsx) && t.len() <= u32::MAX,
{
    let parsed = if tsx { parse_tsx_source(source) } else { parse_typescript_source(source) };
    let p = match parsed {
        Some(p) => p,
        None => {
            return Err(ParseError::NoTree);
        },
    };
    let (n, _, _) = node_shape(&p, 0);
    if n == usize::MAX {
        return Err(ParseError::TooLarge);
    }
    let mut nodes: Vec<SyntaxNode> = Vec::new();
    let mut i: usize = 0;
    while i < n
        invariant
            p.source@ == source@,
            p.tsx == tsx,
            preorder_numbering(source@, tsx),
            n == ts_descendants(source@, tsx, 0),
            n < usize::MAX,
            i <= n,
            nodes@.len() == i,
            forall|k: int| 0 <= k < i ==> node_from(source@, tsx, k, #[trigger] nodes@[k]),
        decreases n - i,
    {
        let (size, moved, up) = node_shape(&p, i);
        let (kind, named, extra, field) = node_labels(&p, i);
        let (sb, eb, sr, er) = node_span(&p, i);
        proof {
            assert(1 <= ts_descendants(source@, tsx, i as int));
        }
        let text = match str_get(source, sb, eb) {
            Some(x) => x.to_owned(),
            None => String::new(),
        };
        let start_row: usize = if sr < usize::MAX - 1 { sr } else { usize::MAX - 2 };
        let last: usize = if er < usize::MAX - 1 { er } else { usize::MAX - 2 };
        let end_row: usize = if last < start_row { start_row } else { last };
        let parent = if moved { Some(up) } else { None };
        let node = SyntaxNode { kind, field, named, extra, text, start_row, end_row, end: i + size, parent };
        proof {
            assert(node_from(source@, tsx, i as int, node));
        }
        nodes.push(node);
        i = i + 1;
    }
    let t = SyntaxTree { nodes, source: source.to_owned(), tsx };
    proof {
        lemma_parsed_wf(&t, source@, tsx);
    }
    Ok(t)
}

/// Parse a TypeScript source string into a syntax tree.
pub fn parse_typescript(source: &str) -> (r: Result<SyntaxTree, ParseError>)
    ensures
        r is Ok <==> parse_succeeds(source@, false),
        r matches Ok(t) ==> t.wf() && parsed_from(t, source@, false) && t.len() <= u32::MAX,
{
    parse_with(source, false)
}

/// Parse a TSX source string into a syntax tree.
pub fn parse_tsx(source: &str) -> (r: Result<SyntaxTree, ParseError>)
    ensures
        r is Ok <==> parse_succeeds(source@, true),
        r matches Ok(t) ==> t.wf() && parsed_from(t, source@, true) && t.len() <= u32::MAX,
{
    parse_with(source, true)
}

/// The path names a `.tsx` file.
pub open spec fn tsx_path(path: Seq<char>) -> bool {
    path.len() >= 4 && path.subrange(path.len() - 4, path.len() as int) == ".tsx"@
}

/// `true` when `path` ends with `.tsx`.
pub fn is_tsx_path(path: &str) -> (r: bool)
    ensures
        r == tsx_path(path@),
{
    proof {
        reveal_strlit(".tsx");
    }
    crate::text::ends_with(path, ".tsx")
}

/// Parse a file by its extension: `.tsx` files with the TSX grammar, all others with TypeScript.
pub fn parse_file(source: &str, path: &str) -> (r: Result<SyntaxTree, ParseError>)
    ensures
        r is Ok <==> parse_succeeds(source@, tsx_path(path@)),
        r matches Ok(t) ==> t.wf() && parsed_from(t, source@, tsx_path(path@)) && t.len() <= u32::MAX,
{
    if is_tsx_path(path) {
        parse_tsx(source)
    } else {
        parse_typescript(source)
    }
}

} // verus!
