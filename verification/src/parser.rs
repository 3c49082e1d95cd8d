//! The language-parser contract, the pieces the parsers share (stable
//! outline ids, symbol and reference records, kind tables) and the registry
//! that dispatches a file to the parser of its extension.

use vstd::prelude::*;
use crate::context::outline_kind_name;
use crate::models::{
    LexicalValueKind, OutlineItem, OutlineItemKind, ParseResult, Range, Reference, ReferenceKind, SymbolInfo, SymbolKind,
};
use crate::syntax::{line_exec, line_of, SyntaxNode};
use crate::text::{append_str, decimal, push_decimal, str_eq};

verus! {

// ── Outline ids ─────────────────────────────────────────────────────────────

/// The stable id of an outline item:
/// `outline:<file_id>:<kind>:<line_start>:<line_end>:<name>`.
pub open spec fn outline_id_text(file_id: Seq<char>, kind: OutlineItemKind, line_start: u32, line_end: u32, name: Seq<char>) -> Seq<char> {
    "outline:"@ + file_id + ":"@ + outline_kind_name(kind) + ":"@ + decimal(line_start as nat) + ":"@ + decimal(
        line_end as nat,
    ) + ":"@ + name
}

impl OutlineItem {
    /// A stable id for an outline item from its file, kind, lines and name;
    /// it survives rescans, unlike a random id.
    pub fn stable_id(file_id: &str, kind: OutlineItemKind, line_start: u32, line_end: u32, name: &str) -> (r: String)
        ensures
            r@ == outline_id_text(file_id@, kind, line_start, line_end, name@),
    {
        let mut r = String::new();
        append_str(&mut r, "outline:");
        append_str(&mut r, file_id);
        append_str(&mut r, ":");
        append_str(&mut r, crate::context::outline_kind_str(kind));
        append_str(&mut r, ":");
        push_decimal(&mut r, line_start as u64);
        append_str(&mut r, ":");
        push_decimal(&mut r, line_end as u64);
        append_str(&mut r, ":");
        append_str(&mut r, name);
        assert(r@ =~= outline_id_text(file_id@, kind, line_start, line_end, name@));
        r
    }
}

/// The stable id of an outline item (see [`OutlineItem::stable_id`]).
pub fn make_outline_id(file_id: &str, kind: OutlineItemKind, line_start: u32, line_end: u32, name: &str) -> (r: String)
    ensures
        r@ == outline_id_text(file_id@, kind, line_start, line_end, name@),
{
    OutlineItem::stable_id(file_id, kind, line_start, line_end, name)
}

/// The outline kind of a TypeScript declaration kind.
pub open spec fn ts_outline_kind(kind: Seq<char>) -> Option<OutlineItemKind> {
    if kind == "class_declaration"@ {
        Some(OutlineItemKind::Class)
    } else if kind == "method_definition"@ {
        Some(OutlineItemKind::Method)
    } else if kind == "function_declaration"@ {
        Some(OutlineItemKind::Function)
    } else if kind == "interface_declaration"@ {
        Some(OutlineItemKind::Interface)
    } else if kind == "type_alias_declaration"@ {
        Some(OutlineItemKind::Type)
    } else if kind == "enum_declaration"@ {
        Some(OutlineItemKind::Enum)
    } else if kind == "lexical_declaration"@ {
        Some(OutlineItemKind::Const)
    } else {
        None
    }
}

/// The outline kind of a TypeScript syntax-node kind.
pub fn ts_node_kind_to_outline_kind(node_kind: &str) -> (r: Option<OutlineItemKind>)
    ensures
        r == ts_outline_kind(node_kind@),
{
    if str_eq(node_kind, "class_declaration") {
        Some(OutlineItemKind::Class)
    } else if str_eq(node_kind, "method_definition") {
        Some(OutlineItemKind::Method)
    } else if str_eq(node_kind, "function_declaration") {
        Some(OutlineItemKind::Function)
    } else if str_eq(node_kind, "interface_declaration") {
        Some(OutlineItemKind::Interface)
    } else if str_eq(node_kind, "type_alias_declaration") {
        Some(OutlineItemKind::Type)
    } else if str_eq(node_kind, "enum_declaration") {
        Some(OutlineItemKind::Enum)
    } else if str_eq(node_kind, "lexical_declaration") {
        Some(OutlineItemKind::Const)
    } else {
        None
    }
}

/// The outline kind of a Rust item kind.
pub open spec fn rust_outline_kind(kind: Seq<char>) -> Option<OutlineItemKind> {
    if kind == "struct_item"@ {
        Some(OutlineItemKind::Struct)
    } else if kind == "enum_item"@ {
        Some(OutlineItemKind::Enum)
    } else if kind == "function_item"@ {
        Some(OutlineItemKind::Function)
    } else if kind == "impl_item"@ {
        Some(OutlineItemKind::Impl)
    } else if kind == "mod_item"@ {
        Some(OutlineItemKind::Module)
    } else if kind == "type_item"@ || kind == "type_alias_item"@ {
        Some(OutlineItemKind::Type)
    } else {
        None
    }
}

/// The outline kind of a Rust syntax-node kind.
pub fn rust_node_kind_to_outline_kind(node_kind: &str) -> (r: Option<OutlineItemKind>)
    ensures
        r == rust_outline_kind(node_kind@),
{
    if str_eq(node_kind, "struct_item") {
        Some(OutlineItemKind::Struct)
    } else if str_eq(node_kind, "enum_item") {
        Some(OutlineItemKind::Enum)
    } else if str_eq(node_kind, "function_item") {
        Some(OutlineItemKind::Function)
    } else if str_eq(node_kind, "impl_item") {
        Some(OutlineItemKind::Impl)
    } else if str_eq(node_kind, "mod_item") {
        Some(OutlineItemKind::Module)
    } else if str_eq(node_kind, "type_item") || str_eq(node_kind, "type_alias_item") {
        Some(OutlineItemKind::Type)
    } else {
        None
    }
}

// ── Records built from syntax nodes ─────────────────────────────────────────

/// `o` is the childless outline item of kind `kind` named `name` for the
/// declaration `n` of file `file_id`.
pub open spec fn outline_leaf(o: OutlineItem, file_id: Seq<char>, kind: OutlineItemKind, n: SyntaxNode, name: Seq<char>) -> bool {
    &&& o.id@ == outline_id_text(file_id, kind, line_of(n.start_row), line_of(n.end_row), name)
    &&& o.file_id@ == file_id
    &&& o.name@ == name
    &&& o.kind == kind
    &&& o.line_start == line_of(n.start_row)
    &&& o.line_end == line_of(n.end_row)
    &&& o.column_start == Some(n.start_col)
    &&& o.column_end == Some(n.end_col)
}

/// Builds the outline item of a declaration, with the given children.
pub fn outline_item(file_id: &str, kind: OutlineItemKind, n: &SyntaxNode, name: &str, children: Vec<OutlineItem>) -> (r: OutlineItem)
    ensures
        outline_leaf(r, file_id@, kind, *n, name@),
        r.children == children,
{
    let ls = line_exec(n.start_row);
    let le = line_exec(n.end_row);
    OutlineItem {
        id: make_outline_id(file_id, kind, ls, le, name),
        file_id: file_id.to_owned(),
        name: name.to_owned(),
        kind,
        line_start: ls,
        line_end: le,
        column_start: Some(n.start_col),
        column_end: Some(n.end_col),
        children,
    }
}

/// What a symbol records, apart from its random id: name, kind, file,
/// lines and whether it is exported.
pub open spec fn symbol_view(s: SymbolInfo) -> (Seq<char>, SymbolKind, Seq<char>, u32, u32, bool) {
    (s.name@, s.kind, s.file_id@, s.line_start, s.line_end, s.exports)
}

/// Views of symbols.
pub open spec fn symbol_views(s: Seq<SymbolInfo>) -> Seq<(Seq<char>, SymbolKind, Seq<char>, u32, u32, bool)> {
    s.map_values(|x: SymbolInfo| symbol_view(x))
}

/// The record of an exported symbol `name` of kind `kind` declared by `n`.
pub open spec fn symbol_of(name: Seq<char>, kind: SymbolKind, file_id: Seq<char>, n: SyntaxNode) -> (Seq<char>, SymbolKind, Seq<char>, u32, u32, bool) {
    (name, kind, file_id, line_of(n.start_row), line_of(n.end_row), true)
}

/// Builds an exported symbol declared by `n`, with a fresh id.
pub fn symbol_at(name: &str, kind: SymbolKind, file_id: &str, n: &SyntaxNode) -> (r: SymbolInfo)
    ensures
        symbol_view(r) == symbol_of(name@, kind, file_id@, *n),
{
    SymbolInfo {
        id: crate::ports::new_uuid_text(),
        name: name.to_owned(),
        kind,
        file_id: file_id.to_owned(),
        line_start: line_exec(n.start_row),
        line_end: line_exec(n.end_row),
        exports: true,
    }
}

/// The source range of a node.
pub open spec fn range_of(n: SyntaxNode) -> Range {
    Range {
        start_byte: n.start_byte,
        end_byte: n.end_byte,
        start_line: line_of(n.start_row),
        start_col: n.start_col,
        end_line: line_of(n.end_row),
        end_col: n.end_col,
    }
}

/// The source range of a node.
pub fn node_range(n: &SyntaxNode) -> (r: Range)
    ensures
        r == range_of(*n),
{
    Range {
        start_byte: n.start_byte,
        end_byte: n.end_byte,
        start_line: line_exec(n.start_row),
        start_col: n.start_col,
        end_line: line_exec(n.end_row),
        end_col: n.end_col,
    }
}

/// What a reference records.
pub open spec fn reference_view(r: Reference) -> (Seq<char>, ReferenceKind, Seq<char>, Range) {
    (r.file_id@, r.kind, r.target_name@, r.range)
}

/// Views of references.
pub open spec fn reference_views(r: Seq<Reference>) -> Seq<(Seq<char>, ReferenceKind, Seq<char>, Range)> {
    r.map_values(|x: Reference| reference_view(x))
}

/// The references with their file set to `file_id`.
pub open spec fn with_file(file_id: Seq<char>, r: Seq<(Seq<char>, ReferenceKind, Seq<char>, Range)>) -> Seq<(Seq<char>, ReferenceKind, Seq<char>, Range)> {
    r.map_values(|x: (Seq<char>, ReferenceKind, Seq<char>, Range)| (file_id, x.1, x.2, x.3))
}

/// Sets the file of every reference to `file_id`.
pub fn set_reference_file(refs: &mut Vec<Reference>, file_id: &str)
    ensures
        reference_views(final(refs)@) == with_file(file_id@, reference_views(old(refs)@)),
{
    let ghost orig = reference_views(refs@);
    let mut k: usize = 0;
    while k < refs.len()
        invariant
            k <= refs@.len(),
            refs@.len() == orig.len(),
            forall|q: int| 0 <= q < k ==> reference_view(#[trigger] refs@[q]) == (file_id@, orig[q].1, orig[q].2, orig[q].3),
            forall|q: int| k <= q < refs@.len() ==> reference_view(#[trigger] refs@[q]) == orig[q],
        decreases refs@.len() - k,
    {
        let mut r = refs.remove(k);
        r.file_id = file_id.to_owned();
        refs.insert(k, r);
        k = k + 1;
    }
    assert(reference_views(refs@) =~= with_file(file_id@, orig));
}

// ── The parser contract ─────────────────────────────────────────────────────

/// A parser for one language: extracts symbols, imports, outline and
/// references of a source file in a single pass.
pub trait LanguageParser {
    /// Identifier of the language (e.g. "typescript").
    fn language_id(&self) -> &'static str;

    /// The extensions the parser handles, as a spec value; none unless the
    /// parser says otherwise.
    open spec fn handled(&self) -> Seq<Seq<char>> {
        Seq::empty()
    }

    /// File extensions the parser handles (e.g. "ts", "tsx").
    fn extensions(&self) -> (r: &'static [&'static str])
        ensures
            r@.map_values(|e: &str| e@) == self.handled(),
    ;

    /// The results the parser may give for `source` at `path`; any result
    /// unless the parser says which.
    open spec fn parses(&self, source: Seq<char>, path: Seq<char>, file_id: Seq<char>, r: ParseResult) -> bool {
        true
    }

    /// Parses a source file.
    fn parse_all(&self, source: &str, path: &str, file_id: &str) -> (r: ParseResult)
        ensures
            self.parses(source@, path@, file_id@, r),
    ;

    /// Whether the parser handles `extension`.
    fn supports(&self, extension: &str) -> (r: bool)
        ensures
            r == self.handled().contains(extension@),
    {
        let exts = self.extensions();
        let mut k: usize = 0;
        while k < exts.len()
            invariant
                k <= exts@.len(),
                exts@.map_values(|e: &str| e@) == self.handled(),
                forall|q: int| 0 <= q < k ==> (#[trigger] exts@[q])@ != extension@,
            decreases exts@.len() - k,
        {
            if str_eq(exts[k], extension) {
                assert(self.handled()[k as int] == extension@);
                return true;
            }
            k = k + 1;
        }
        proof {
            if self.handled().contains(extension@) {
                let q = choose|q: int| 0 <= q < self.handled().len() && self.handled()[q] == extension@;
                assert(exts@[q]@ == extension@);
            }
        }
        false
    }

    /// The lexical kind of a top-level node; a function unless the parser
    /// knows better.
    fn lexical_kind_for(&self, node: &SyntaxNode, source: &str) -> (r: LexicalValueKind)
        default_ensures
            r == LexicalValueKind::Function,
    {
        LexicalValueKind::Function
    }

    /// The references a top-level node makes; none unless the parser knows
    /// better.
    fn extract_references(&self, node: &SyntaxNode, source: &str) -> (r: Vec<Reference>)
        default_ensures
            r@.len() == 0,
    {
        Vec::new()
    }
}

/// Python is recognized but not parsed yet: every file gives an empty
/// result.
#[derive(Debug, Clone, Copy, Default)]
pub struct PythonParser;

impl PythonParser {
    pub fn new() -> Self {
        PythonParser
    }
}

impl LanguageParser for PythonParser {
    fn language_id(&self) -> (r: &'static str)
        ensures
            r@ == "python"@,
    {
        "python"
    }

    open spec fn handled(&self) -> Seq<Seq<char>> {
        seq!["py"@]
    }

    fn extensions(&self) -> (r: &'static [&'static str]) {
        let r: &'static [&'static str] = &["py"];
        proof {
            assert(r@.map_values(|e: &str| e@) =~= seq!["py"@]);
        }
        r
    }

    open spec fn parses(&self, source: Seq<char>, path: Seq<char>, file_id: Seq<char>, r: ParseResult) -> bool {
        r.is_empty_result()
    }

    fn parse_all(&self, source: &str, path: &str, file_id: &str) -> (r: ParseResult)
        ensures
            r.is_empty_result(),
    {
        ParseResult::default()
    }
}

} // verus!
