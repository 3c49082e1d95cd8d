//! Concrete syntax trees as plain values, the grammars they are parsed
//! with, and the lookups the language parsers make in them.
//!
//! Parsing itself is tree-sitter's work; the tree it returns is copied,
//! node for node, into [`SyntaxNode`]s, on which the extraction logic of
//! the language parsers runs.

use vstd::prelude::*;
use crate::text::{has_prefix, str_eq, str_starts_with};

verus! {

broadcast use vstd::seq_lib::group_seq_properties;

/// A node of a concrete syntax tree.
#[derive(Debug)]
pub struct SyntaxNode {
    /// Grammar kind of the node.
    pub kind: String,
    /// Whether the node is named (not an anonymous token).
    pub named: bool,
    /// Name of the field under which the node hangs from its parent.
    pub field: Option<String>,
    /// The source text the node spans.
    pub text: String,
    /// Byte offsets of the node in the source.
    pub start_byte: usize,
    pub end_byte: usize,
    /// Zero-based rows and columns of the node's ends.
    pub start_row: u32,
    pub start_col: u32,
    pub end_row: u32,
    pub end_col: u32,
    /// Children, in source order.
    pub children: Vec<SyntaxNode>,
}

/// Grammars the engine parses with.
#[derive(Debug, Clone, Copy, PartialEq, Eq, Structural)]
pub enum Grammar {
    TypeScript,
    Tsx,
    JavaScript,
    Rust,
}

/// The syntax tree tree-sitter builds for `source` with `grammar`; none when
/// the grammar cannot be loaded or the parse gives up.
pub uninterp spec fn syntax_tree(source: Seq<char>, grammar: Grammar) -> Option<SyntaxNode>;

/// A node of a tree-sitter tree, carried opaquely.
#[verifier::external_type_specification]
#[verifier::external_body]
pub struct ExTsNode<'tree>(tree_sitter::Node<'tree>);

/// Copies one tree-sitter node (without its children) into a plain node.
#[verifier::external_body]
fn node_head(node: tree_sitter::Node, field: Option<&str>, bytes: &[u8]) -> SyntaxNode {
    let (s, e) = (node.start_position(), node.end_position());
    SyntaxNode {
        kind: node.kind().to_string(),
        named: node.is_named(),
        field: field.map(|f| f.to_string()),
        text: node.utf8_text(bytes).unwrap_or("").to_string(),
        start_byte: node.start_byte(),
        end_byte: node.end_byte(),
        start_row: s.row as u32,
        start_col: s.column as u32,
        end_row: e.row as u32,
        end_col: e.column as u32,
        children: Vec::new(),
    }
}

/// Copies a tree-sitter node and, through a tree cursor, its children.
#[verifier::external_body]
fn node_tree(node: tree_sitter::Node, field: Option<&str>, bytes: &[u8]) -> SyntaxNode {
    let mut out = node_head(node, field, bytes);
    let mut cursor = node.walk();
    let mut more = cursor.goto_first_child();
    while more {
        out.children.push(node_tree(cursor.node(), cursor.field_name(), bytes));
        more = cursor.goto_next_sibling();
    }
    out
}

/// tree-sitter's `Parser::parse` with the grammar's language, the tree
/// copied into plain nodes; named `syntax_tree`.
#[verifier::external_body]
pub(crate) fn parse_syntax(source: &str, grammar: Grammar) -> (r: Option<SyntaxNode>)
    ensures
        r == syntax_tree(source@, grammar),
{
    let language: tree_sitter::Language = match grammar {
        Grammar::TypeScript => tree_sitter_typescript::LANGUAGE_TYPESCRIPT.into(),
        Grammar::Tsx => tree_sitter_typescript::LANGUAGE_TSX.into(),
        Grammar::JavaScript => tree_sitter_javascript::LANGUAGE.into(),
        Grammar::Rust => tree_sitter_rust::LANGUAGE.into(),
    };
    let mut parser = tree_sitter::Parser::new();
    parser.set_language(&language).ok()?;
    let tree = parser.parse(source, None)?;
    Some(node_tree(tree.root_node(), None, source.as_bytes()))
}

/// The syntax tree of `source` in `grammar`, as the language parsers take
/// it; `None` when no tree could be built.
pub fn parse_source(source: &str, grammar: Grammar) -> (r: Option<SyntaxNode>)
    ensures
        r == syntax_tree(source@, grammar),
{
    parse_syntax(source, grammar)
}

/// The node hangs under field `f`.
pub open spec fn has_field(n: SyntaxNode, f: Seq<char>) -> bool {
    n.field matches Some(x) && x@ == f
}

/// The first of `ch` under field `f` (tree-sitter's `child_by_field_name`).
pub open spec fn field_child(ch: Seq<SyntaxNode>, f: Seq<char>) -> Option<SyntaxNode>
    decreases ch.len(),
{
    if ch.len() == 0 {
        None
    } else if has_field(ch[0], f) {
        Some(ch[0])
    } else {
        field_child(ch.drop_first(), f)
    }
}

/// The first of `ch` of kind `k`.
pub open spec fn kind_child(ch: Seq<SyntaxNode>, k: Seq<char>) -> Option<SyntaxNode>
    decreases ch.len(),
{
    if ch.len() == 0 {
        None
    } else if ch[0].kind@ == k {
        Some(ch[0])
    } else {
        kind_child(ch.drop_first(), k)
    }
}

/// The child qualifies as the declaration an `export` statement wraps:
/// named and not a comment.
pub open spec fn is_declaration(n: SyntaxNode) -> bool {
    n.named && !has_prefix(n.kind@, "comment"@)
}

/// Index of the first declaration child, or the number of children.
pub open spec fn declaration_index(ch: Seq<SyntaxNode>) -> int
    decreases ch.len(),
{
    if ch.len() == 0 || is_declaration(ch[0]) {
        0
    } else {
        1 + declaration_index(ch.drop_first())
    }
}

/// The first named child that is not a comment: the declaration an
/// `export` statement wraps.
pub open spec fn declaration_child(ch: Seq<SyntaxNode>) -> Option<SyntaxNode> {
    let k = declaration_index(ch);
    if 0 <= k < ch.len() {
        Some(ch[k])
    } else {
        None
    }
}

pub proof fn lemma_declaration_index(ch: Seq<SyntaxNode>)
    ensures
        0 <= declaration_index(ch) <= ch.len(),
        declaration_index(ch) < ch.len() ==> is_declaration(ch[declaration_index(ch)]),
        forall|k: int| 0 <= k < declaration_index(ch) ==> !is_declaration(#[trigger] ch[k]),
    decreases ch.len(),
{
    if ch.len() > 0 && !is_declaration(ch[0]) {
        lemma_declaration_index(ch.drop_first());
        assert forall|k: int| 0 <= k < declaration_index(ch) implies !is_declaration(#[trigger] ch[k]) by {
            if k > 0 {
                assert(ch[k] == ch.drop_first()[k - 1]);
            }
        }
    }
}

/// Index of the first child under field `f`.
pub fn find_field_child(n: &SyntaxNode, f: &str) -> (r: Option<usize>)
    ensures
        r matches Some(k) ==> k < n.children@.len() && field_child(n.children@, f@) == Some(n.children@[k as int]),
        r is None ==> field_child(n.children@, f@) is None,
{
    let mut k: usize = 0;
    while k < n.children.len()
        invariant
            k <= n.children@.len(),
            field_child(n.children@, f@) == field_child(n.children@.skip(k as int), f@),
        decreases n.children@.len() - k,
    {
        assert(n.children@.skip(k as int)[0] == n.children@[k as int]);
        assert(n.children@.skip(k as int).drop_first() =~= n.children@.skip(k + 1));
        match &n.children[k].field {
            Some(x) => {
                if str_eq(x.as_str(), f) {
                    return Some(k);
                }
            },
            None => {},
        }
        k = k + 1;
    }
    None
}

/// Index of the first child of kind `kind`.
pub fn find_kind_child(n: &SyntaxNode, kind: &str) -> (r: Option<usize>)
    ensures
        r matches Some(k) ==> k < n.children@.len() && kind_child(n.children@, kind@) == Some(n.children@[k as int]),
        r is None ==> kind_child(n.children@, kind@) is None,
{
    let mut k: usize = 0;
    while k < n.children.len()
        invariant
            k <= n.children@.len(),
            kind_child(n.children@, kind@) == kind_child(n.children@.skip(k as int), kind@),
        decreases n.children@.len() - k,
    {
        assert(n.children@.skip(k as int)[0] == n.children@[k as int]);
        assert(n.children@.skip(k as int).drop_first() =~= n.children@.skip(k + 1));
        if str_eq(n.children[k].kind.as_str(), kind) {
            return Some(k);
        }
        k = k + 1;
    }
    None
}

/// Index of the declaration an `export` statement wraps.
pub fn find_declaration_child(n: &SyntaxNode) -> (r: Option<usize>)
    ensures
        r matches Some(k) ==> k < n.children@.len() && k == declaration_index(n.children@),
        r is None ==> declaration_index(n.children@) == n.children@.len(),
        declaration_child(n.children@) == match r {
            Some(k) => Some(n.children@[k as int]),
            None => None::<SyntaxNode>,
        },
{
    proof {
        lemma_declaration_index(n.children@);
    }
    let mut k: usize = 0;
    while k < n.children.len()
        invariant
            k <= n.children@.len(),
            k <= declaration_index(n.children@),
            0 <= declaration_index(n.children@) <= n.children@.len(),
            declaration_index(n.children@) < n.children@.len() ==> is_declaration(n.children@[declaration_index(n.children@)]),
            forall|q: int| 0 <= q < declaration_index(n.children@) ==> !is_declaration(#[trigger] n.children@[q]),
        decreases n.children@.len() - k,
    {
        let c = &n.children[k];
        if c.named && !str_starts_with(c.kind.as_str(), "comment") {
            return Some(k);
        }
        k = k + 1;
    }
    None
}

/// The 1-based line of a zero-based row (wrapping as unsigned 32-bit
/// arithmetic does).
pub open spec fn line_of(row: u32) -> u32 {
    ((row + 1) % 0x1_0000_0000) as u32
}

/// The 1-based line of a zero-based row.
pub fn line_exec(row: u32) -> (r: u32)
    ensures
        r == line_of(row),
{
    row.wrapping_add(1)
}

/// `f` applied to each node, the results concatenated in order.
pub open spec fn flat_map<T>(ns: Seq<SyntaxNode>, f: spec_fn(SyntaxNode) -> Seq<T>) -> Seq<T>
    decreases ns.len(),
{
    if ns.len() == 0 {
        Seq::empty()
    } else {
        flat_map(ns.drop_last(), f) + f(ns.last())
    }
}

pub proof fn lemma_flat_map_step<T>(ns: Seq<SyntaxNode>, f: spec_fn(SyntaxNode) -> Seq<T>, i: int)
    requires
        0 <= i < ns.len(),
    ensures
        flat_map(ns.take(i + 1), f) == flat_map(ns.take(i), f) + f(ns[i]),
{
    assert(ns.take(i + 1).drop_last() =~= ns.take(i));
    assert(ns.take(i + 1).last() == ns[i]);
}

pub proof fn lemma_flat_map_all<T>(ns: Seq<SyntaxNode>, f: spec_fn(SyntaxNode) -> Seq<T>)
    ensures
        flat_map(ns.take(ns.len() as int), f) == flat_map(ns, f),
        flat_map(ns.take(0), f) == Seq::<T>::empty(),
{
    assert(ns.take(ns.len() as int) =~= ns);
    assert(ns.take(0) =~= Seq::<SyntaxNode>::empty());
}

} // verus!
