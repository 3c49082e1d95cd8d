//! TypeScript / TSX / JavaScript parser: symbols, imports, a two-level
//! outline (declarations and their members), import and export references,
//! and the lexical kind of the file, all from the top-level nodes of one
//! syntax tree.

use vstd::prelude::*;
use crate::models::{
    ImportInfo, LexicalValueKind, OutlineItem, OutlineItemKind, ParseResult, Reference, ReferenceKind, SymbolKind, SymbolInfo,
};
use crate::parser::{
    node_range, outline_item, outline_leaf, range_of, reference_view, reference_views, set_reference_file, symbol_at,
    symbol_of, symbol_view, symbol_views, with_file, LanguageParser,
};
use crate::syntax::{
    declaration_child, declaration_index, field_child, find_declaration_child, find_field_child, find_kind_child,
    flat_map, kind_child, lemma_declaration_index, lemma_flat_map_all, lemma_flat_map_step, SyntaxNode,
};
use crate::text::{chars_of, has_substring, str_contains, str_ends_with, str_eq};


verus! {

broadcast use vstd::seq_lib::group_seq_properties;

/// A reference as recorded: file, kind, target name and range.
pub type RefView = (Seq<char>, ReferenceKind, Seq<char>, crate::models::Range);

/// A symbol as recorded, apart from its id.
pub type SymbolView = (Seq<char>, SymbolKind, Seq<char>, u32, u32, bool);

/// An outline entry: kind, declaring node and name.
pub type OutlineEntry = (OutlineItemKind, SyntaxNode, Seq<char>);

/// The symbol kind of a top-level TypeScript node kind.
pub open spec fn ts_symbol_kind(k: Seq<char>) -> Option<SymbolKind> {
    if k == "class_declaration"@ {
        Some(SymbolKind::Class)
    } else if k == "function_declaration"@ {
        Some(SymbolKind::Function)
    } else if k == "method_definition"@ {
        Some(SymbolKind::Method)
    } else if k == "interface_declaration"@ {
        Some(SymbolKind::Interface)
    } else if k == "type_alias_declaration"@ {
        Some(SymbolKind::TypeAlias)
    } else if k == "enum_declaration"@ {
        Some(SymbolKind::Enum)
    } else if k == "lexical_declaration"@ {
        Some(SymbolKind::Const)
    } else {
        None
    }
}

/// Each top-level TypeScript declaration gets the symbol kind of its node
/// kind: classes are classes, interfaces interfaces, type aliases type
/// aliases, enums enums, functions functions, methods methods and lexical
/// declarations constants; no other node kind is a symbol.
pub proof fn lemma_ts_symbol_kinds(k: Seq<char>)
    ensures
        ts_symbol_kind(k) == Some(SymbolKind::Class) <==> k == "class_declaration"@,
        ts_symbol_kind(k) == Some(SymbolKind::Interface) <==> k == "interface_declaration"@,
        ts_symbol_kind(k) == Some(SymbolKind::TypeAlias) <==> k == "type_alias_declaration"@,
        ts_symbol_kind(k) == Some(SymbolKind::Enum) <==> k == "enum_declaration"@,
        ts_symbol_kind(k) == Some(SymbolKind::Function) <==> k == "function_declaration"@,
        ts_symbol_kind(k) == Some(SymbolKind::Method) <==> k == "method_definition"@,
        ts_symbol_kind(k) == Some(SymbolKind::Const) <==> k == "lexical_declaration"@,
        ts_symbol_kind(k) is None <==> (k != "class_declaration"@ && k != "interface_declaration"@
            && k != "type_alias_declaration"@ && k != "enum_declaration"@ && k != "function_declaration"@
            && k != "method_definition"@ && k != "lexical_declaration"@),
{
    reveal_strlit("class_declaration");
    reveal_strlit("interface_declaration");
    reveal_strlit("type_alias_declaration");
    reveal_strlit("enum_declaration");
    reveal_strlit("function_declaration");
    reveal_strlit("method_definition");
    reveal_strlit("lexical_declaration");
    assert("class_declaration"@[0] == 'c' && "interface_declaration"@[0] == 'i' && "type_alias_declaration"@[0] == 't'
        && "enum_declaration"@[0] == 'e' && "function_declaration"@[0] == 'f' && "method_definition"@[0] == 'm'
        && "lexical_declaration"@[0] == 'l');
}

/// Distinct TypeScript node kinds never share a symbol kind, and the
/// outline shows each declaration under the kind of its node: an interface
/// as an interface, a class as a class, a type alias as a type.
pub proof fn lemma_ts_kinds_distinct(k1: Seq<char>, k2: Seq<char>)
    ensures
        ts_symbol_kind(k1) is Some && ts_symbol_kind(k1) == ts_symbol_kind(k2) ==> k1 == k2,
        k1 == "class_declaration"@ ==> symbol_outline_kind(ts_symbol_kind(k1)->0) == Some(OutlineItemKind::Class),
        k1 == "interface_declaration"@ ==> symbol_outline_kind(ts_symbol_kind(k1)->0) == Some(OutlineItemKind::Interface),
        k1 == "type_alias_declaration"@ ==> symbol_outline_kind(ts_symbol_kind(k1)->0) == Some(OutlineItemKind::Type),
        k1 == "enum_declaration"@ ==> symbol_outline_kind(ts_symbol_kind(k1)->0) == Some(OutlineItemKind::Enum),
        k1 == "function_declaration"@ ==> symbol_outline_kind(ts_symbol_kind(k1)->0) == Some(OutlineItemKind::Function),
        k1 == "method_definition"@ ==> symbol_outline_kind(ts_symbol_kind(k1)->0) == Some(OutlineItemKind::Method),
        k1 == "lexical_declaration"@ ==> symbol_outline_kind(ts_symbol_kind(k1)->0) == Some(OutlineItemKind::Const),
{
    lemma_ts_symbol_kinds(k1);
    lemma_ts_symbol_kinds(k2);
}

pub(crate) fn ts_symbol_kind_exec(k: &str) -> (r: Option<SymbolKind>)
    ensures
        r == ts_symbol_kind(k@),
{
    if str_eq(k, "class_declaration") {
        Some(SymbolKind::Class)
    } else if str_eq(k, "function_declaration") {
        Some(SymbolKind::Function)
    } else if str_eq(k, "method_definition") {
        Some(SymbolKind::Method)
    } else if str_eq(k, "interface_declaration") {
        Some(SymbolKind::Interface)
    } else if str_eq(k, "type_alias_declaration") {
        Some(SymbolKind::TypeAlias)
    } else if str_eq(k, "enum_declaration") {
        Some(SymbolKind::Enum)
    } else if str_eq(k, "lexical_declaration") {
        Some(SymbolKind::Const)
    } else {
        None
    }
}

/// The outline kind of a symbol kind.
pub open spec fn symbol_outline_kind(k: SymbolKind) -> Option<OutlineItemKind> {
    match k {
        SymbolKind::Class => Some(OutlineItemKind::Class),
        SymbolKind::Function => Some(OutlineItemKind::Function),
        SymbolKind::Method => Some(OutlineItemKind::Method),
        SymbolKind::Interface => Some(OutlineItemKind::Interface),
        SymbolKind::TypeAlias => Some(OutlineItemKind::Type),
        SymbolKind::Enum => Some(OutlineItemKind::Enum),
        SymbolKind::Const => Some(OutlineItemKind::Const),
        _ => None,
    }
}

fn symbol_outline_kind_exec(k: SymbolKind) -> (r: Option<OutlineItemKind>)
    ensures
        r == symbol_outline_kind(k),
{
    match k {
        SymbolKind::Class => Some(OutlineItemKind::Class),
        SymbolKind::Function => Some(OutlineItemKind::Function),
        SymbolKind::Method => Some(OutlineItemKind::Method),
        SymbolKind::Interface => Some(OutlineItemKind::Interface),
        SymbolKind::TypeAlias => Some(OutlineItemKind::Type),
        SymbolKind::Enum => Some(OutlineItemKind::Enum),
        SymbolKind::Const => Some(OutlineItemKind::Const),
        _ => None,
    }
}

/// Kinds of the value expressions that cannot name a declarator.
pub open spec fn is_value_kind(k: Seq<char>) -> bool {
    k == "arrow_function"@ || k == "object"@ || k == "array"@ || k == "member"@ || k == "binary"@ || k == "call"@
        || k == "conditional"@ || k == "sequence"@ || k == "parenthesized"@ || k == "template"@
}

fn is_value_kind_exec(k: &str) -> (r: bool)
    ensures
        r == is_value_kind(k@),
{
    str_eq(k, "arrow_function") || str_eq(k, "object") || str_eq(k, "array") || str_eq(k, "member") || str_eq(
        k,
        "binary",
    ) || str_eq(k, "call") || str_eq(k, "conditional") || str_eq(k, "sequence") || str_eq(k, "parenthesized")
        || str_eq(k, "template")
}

/// The first named child that is not a value expression.
pub open spec fn declarator_fallback(ch: Seq<SyntaxNode>) -> Option<SyntaxNode>
    decreases ch.len(),
{
    if ch.len() == 0 {
        None
    } else if ch[0].named && !is_value_kind(ch[0].kind@) {
        Some(ch[0])
    } else {
        declarator_fallback(ch.drop_first())
    }
}

/// The name a variable declarator binds: its `name` field, else its first
/// named child that is not a value.
pub open spec fn declarator_name(vd: SyntaxNode) -> Option<Seq<char>> {
    match field_child(vd.children@, "name"@) {
        Some(n) => Some(n.text@),
        None => match declarator_fallback(vd.children@) {
            Some(n) => Some(n.text@),
            None => None,
        },
    }
}

/// The name of the first variable declarator among `ch` that names one.
pub open spec fn first_declarator_name(ch: Seq<SyntaxNode>) -> Option<Seq<char>>
    decreases ch.len(),
{
    if ch.len() == 0 {
        None
    } else if ch[0].kind@ == "variable_declarator"@ && declarator_name(ch[0]) is Some {
        declarator_name(ch[0])
    } else {
        first_declarator_name(ch.drop_first())
    }
}

/// The declared name of a declaration: its `name` field, or for a lexical
/// declaration the name of its first named declarator.
pub open spec fn decl_name(n: SyntaxNode) -> Option<Seq<char>> {
    match field_child(n.children@, "name"@) {
        Some(c) => Some(c.text@),
        None => if n.kind@ == "lexical_declaration"@ {
            first_declarator_name(n.children@)
        } else {
            None
        },
    }
}

fn declarator_name_exec(vd: &SyntaxNode) -> (r: Option<String>)
    ensures
        match r {
            Some(s) => declarator_name(*vd) == Some(s@),
            None => declarator_name(*vd) is None,
        },
{
    match find_field_child(vd, "name") {
        Some(k) => return Some(vd.children[k].text.clone()),
        None => {},
    }
    let mut k: usize = 0;
    while k < vd.children.len()
        invariant
            k <= vd.children@.len(),
            field_child(vd.children@, "name"@) is None,
            declarator_fallback(vd.children@) == declarator_fallback(vd.children@.skip(k as int)),
        decreases vd.children@.len() - k,
    {
        assert(vd.children@.skip(k as int)[0] == vd.children@[k as int]);
        assert(vd.children@.skip(k as int).drop_first() =~= vd.children@.skip(k + 1));
        let c = &vd.children[k];
        if c.named && !is_value_kind_exec(c.kind.as_str()) {
            return Some(c.text.clone());
        }
        k = k + 1;
    }
    None
}

/// The declared name of a declaration node.
fn decl_name_exec(n: &SyntaxNode) -> (r: Option<String>)
    ensures
        match r {
            Some(s) => decl_name(*n) == Some(s@),
            None => decl_name(*n) is None,
        },
{
    match find_field_child(n, "name") {
        Some(k) => return Some(n.children[k].text.clone()),
        None => {},
    }
    if !str_eq(n.kind.as_str(), "lexical_declaration") {
        return None;
    }
    let mut k: usize = 0;
    while k < n.children.len()
        invariant
            k <= n.children@.len(),
            field_child(n.children@, "name"@) is None,
            n.kind@ == "lexical_declaration"@,
            first_declarator_name(n.children@) == first_declarator_name(n.children@.skip(k as int)),
        decreases n.children@.len() - k,
    {
        assert(n.children@.skip(k as int)[0] == n.children@[k as int]);
        assert(n.children@.skip(k as int).drop_first() =~= n.children@.skip(k + 1));
        let c = &n.children[k];
        if str_eq(c.kind.as_str(), "variable_declarator") {
            match declarator_name_exec(c) {
                Some(s) => return Some(s),
                None => {},
            }
        }
        k = k + 1;
    }
    None
}

/// Some child is a variable declarator with an arrow function among its
/// children.
pub open spec fn lexical_decl_has_arrow(n: SyntaxNode) -> bool {
    exists|i: int, j: int|
        0 <= i < n.children@.len() && (#[trigger] n.children@[i]).kind@ == "variable_declarator"@ && 0 <= j
            < n.children@[i].children@.len() && (#[trigger] n.children@[i].children@[j]).kind@ == "arrow_function"@
}

/// `n` has a child of kind arrow function.
pub open spec fn has_arrow_child(n: SyntaxNode) -> bool {
    exists|j: int| 0 <= j < n.children@.len() && (#[trigger] n.children@[j]).kind@ == "arrow_function"@
}

/// A class field definition.
pub open spec fn is_field_definition(n: SyntaxNode) -> bool {
    n.kind@ == "public_field_definition"@ || n.kind@ == "field_definition"@
}

/// The class has a body with a field whose value is an arrow function.
pub open spec fn class_body_has_arrow_field(n: SyntaxNode) -> bool {
    exists|i: int, j: int|
        0 <= i < n.children@.len() && (#[trigger] n.children@[i]).kind@ == "class_body"@ && 0 <= j
            < n.children@[i].children@.len() && is_field_definition(#[trigger] n.children@[i].children@[j])
            && has_arrow_child(n.children@[i].children@[j])
}

fn has_arrow_child_exec(n: &SyntaxNode) -> (r: bool)
    ensures
        r == has_arrow_child(*n),
{
    let mut j: usize = 0;
    while j < n.children.len()
        invariant
            j <= n.children@.len(),
            forall|q: int| 0 <= q < j ==> (#[trigger] n.children@[q]).kind@ != "arrow_function"@,
        decreases n.children@.len() - j,
    {
        if str_eq(n.children[j].kind.as_str(), "arrow_function") {
            return true;
        }
        j = j + 1;
    }
    false
}

fn lexical_decl_has_arrow_exec(n: &SyntaxNode) -> (r: bool)
    ensures
        r == lexical_decl_has_arrow(*n),
{
    let mut i: usize = 0;
    while i < n.children.len()
        invariant
            i <= n.children@.len(),
            forall|p: int, q: int|
                0 <= p < i && (#[trigger] n.children@[p]).kind@ == "variable_declarator"@ && 0 <= q
                    < n.children@[p].children@.len() ==> (#[trigger] n.children@[p].children@[q]).kind@ != "arrow_function"@,
        decreases n.children@.len() - i,
    {
        let c = &n.children[i];
        if str_eq(c.kind.as_str(), "variable_declarator") {
            if has_arrow_child_exec(c) {
                return true;
            }
        }
        i = i + 1;
    }
    false
}

fn class_body_has_arrow_field_exec(n: &SyntaxNode) -> (r: bool)
    ensures
        r == class_body_has_arrow_field(*n),
{
    let mut i: usize = 0;
    while i < n.children.len()
        invariant
            i <= n.children@.len(),
            forall|p: int, q: int|
                0 <= p < i && (#[trigger] n.children@[p]).kind@ == "class_body"@ && 0 <= q < n.children@[p].children@.len()
                    ==> !(is_field_definition(#[trigger] n.children@[p].children@[q]) && has_arrow_child(
                    n.children@[p].children@[q],
                )),
        decreases n.children@.len() - i,
    {
        let c = &n.children[i];
        if str_eq(c.kind.as_str(), "class_body") {
            let mut j: usize = 0;
            while j < c.children.len()
                invariant
                    j <= c.children@.len(),
                    i < n.children@.len(),
                    *c == n.children@[i as int],
                    c.kind@ == "class_body"@,
                    forall|q: int|
                        0 <= q < j ==> !(is_field_definition(#[trigger] c.children@[q]) && has_arrow_child(c.children@[q])),
                decreases c.children@.len() - j,
            {
                let b = &c.children[j];
                if str_eq(b.kind.as_str(), "public_field_definition") || str_eq(b.kind.as_str(), "field_definition") {
                    if has_arrow_child_exec(b) {
                        assert(is_field_definition(n.children@[i as int].children@[j as int]));
                        return true;
                    }
                }
                j = j + 1;
            }
        }
        i = i + 1;
    }
    false
}

/// The lexical kind of a top-level node: a function declaration is a
/// function; a lexical declaration or a class is an arrow function when an
/// arrow function is its (field's) value, a constant otherwise; an export
/// statement is classified by the declaration it wraps.
pub open spec fn ts_lexical_kind(n: SyntaxNode) -> LexicalValueKind
    decreases n,
{
    if n.kind@ == "function_declaration"@ {
        LexicalValueKind::Function
    } else if n.kind@ == "lexical_declaration"@ {
        if lexical_decl_has_arrow(n) { LexicalValueKind::ArrowFunction } else { LexicalValueKind::Const }
    } else if n.kind@ == "class_declaration"@ {
        if class_body_has_arrow_field(n) { LexicalValueKind::ArrowFunction } else { LexicalValueKind::Const }
    } else if n.kind@ == "export_statement"@ {
        let k = declaration_index(n.children@);
        if 0 <= k < n.children@.len() {
            ts_lexical_kind(n.children@[k])
        } else {
            LexicalValueKind::Const
        }
    } else {
        LexicalValueKind::Const
    }
}

fn ts_lexical_kind_exec(n: &SyntaxNode) -> (r: LexicalValueKind)
    ensures
        r == ts_lexical_kind(*n),
    decreases n,
{
    let kind = n.kind.as_str();
    if str_eq(kind, "function_declaration") {
        LexicalValueKind::Function
    } else if str_eq(kind, "lexical_declaration") {
        if lexical_decl_has_arrow_exec(n) { LexicalValueKind::ArrowFunction } else { LexicalValueKind::Const }
    } else if str_eq(kind, "class_declaration") {
        if class_body_has_arrow_field_exec(n) { LexicalValueKind::ArrowFunction } else { LexicalValueKind::Const }
    } else if str_eq(kind, "export_statement") {
        match find_declaration_child(n) {
            Some(k) => {
                assert(decreases_to!(n.children@ => n.children@[k as int]));
                ts_lexical_kind_exec(&n.children[k])
            },
            None => LexicalValueKind::Const,
        }
    } else {
        LexicalValueKind::Const
    }
}

// ── Class members ───────────────────────────────────────────────────────────

/// The outline kind of a class or interface member.
pub open spec fn member_kind(n: SyntaxNode) -> Option<OutlineItemKind> {
    if n.kind@ == "method_definition"@ {
        Some(OutlineItemKind::Method)
    } else if n.kind@ == "property_declaration"@ {
        Some(OutlineItemKind::Field)
    } else {
        None
    }
}

/// The outline entry of a member: a method or property with a name.
pub open spec fn member_entry(n: SyntaxNode) -> Seq<OutlineEntry> {
    match member_kind(n) {
        Some(k) => match field_child(n.children@, "name"@) {
            Some(nm) => seq![(k, n, nm.text@)],
            None => Seq::empty(),
        },
        None => Seq::empty(),
    }
}

/// The nodes scanned for members: the class body's children, else the
/// declaration's own children.
pub open spec fn member_scan(parent: SyntaxNode) -> Seq<SyntaxNode> {
    match kind_child(parent.children@, "class_body"@) {
        Some(b) => b.children@,
        None => parent.children@,
    }
}

/// The member entries of a declaration.
pub open spec fn members(parent: SyntaxNode) -> Seq<OutlineEntry> {
    flat_map(member_scan(parent), |n: SyntaxNode| member_entry(n))
}

/// `os` are the childless outline items of `entries`.
pub open spec fn leaves_ok(os: Seq<OutlineItem>, file_id: Seq<char>, entries: Seq<OutlineEntry>) -> bool {
    &&& os.len() == entries.len()
    &&& forall|i: int|
        0 <= i < os.len() ==> outline_leaf(#[trigger] os[i], file_id, entries[i].0, entries[i].1, entries[i].2)
            && os[i].children@.len() == 0
}

fn member_kind_exec(n: &SyntaxNode) -> (r: Option<OutlineItemKind>)
    ensures
        r == member_kind(*n),
{
    if str_eq(n.kind.as_str(), "method_definition") {
        Some(OutlineItemKind::Method)
    } else if str_eq(n.kind.as_str(), "property_declaration") {
        Some(OutlineItemKind::Field)
    } else {
        None
    }
}

fn push_members(scan: &Vec<SyntaxNode>, file_id: &str, out: &mut Vec<OutlineItem>)
    requires
        old(out)@.len() == 0,
    ensures
        leaves_ok(final(out)@, file_id@, flat_map(scan@, |n: SyntaxNode| member_entry(n))),
{
    let ghost f = |n: SyntaxNode| member_entry(n);
    proof {
        lemma_flat_map_all(scan@, f);
    }
    let mut k: usize = 0;
    while k < scan.len()
        invariant
            k <= scan@.len(),
            f == (|n: SyntaxNode| member_entry(n)),
            leaves_ok(out@, file_id@, flat_map(scan@.take(k as int), f)),
        decreases scan@.len() - k,
    {
        let n = &scan[k];
        proof {
            lemma_flat_map_step(scan@, f, k as int);
        }
        let ghost before = out@;
        let ghost prev = flat_map(scan@.take(k as int), f);
        match member_kind_exec(n) {
            Some(kind) => match find_field_child(n, "name") {
                Some(j) => {
                    let item = outline_item(file_id, kind, n, n.children[j].text.as_str(), Vec::new());
                    out.push(item);
                    proof {
                        assert(flat_map(scan@.take(k + 1), f) =~= prev.push((kind, *n, n.children@[j as int].text@)));
                        assert forall|i: int| 0 <= i < out@.len() implies outline_leaf(
                            #[trigger] out@[i],
                            file_id@,
                            flat_map(scan@.take(k + 1), f)[i].0,
                            flat_map(scan@.take(k + 1), f)[i].1,
                            flat_map(scan@.take(k + 1), f)[i].2,
                        ) && out@[i].children@.len() == 0 by {
                            if i < before.len() {
                                assert(out@[i] == before[i]);
                            }
                        }
                    }
                },
                None => {
                    assert(flat_map(scan@.take(k + 1), f) =~= prev);
                },
            },
            None => {
                assert(flat_map(scan@.take(k + 1), f) =~= prev);
            },
        }
        k = k + 1;
    }
}

/// The members of a class or interface declaration, as childless outline
/// items: methods and properties with a name, from the class body when
/// there is one.
fn extract_children(parent: &SyntaxNode, file_id: &str) -> (r: Vec<OutlineItem>)
    ensures
        leaves_ok(r@, file_id@, members(*parent)),
{
    let mut out: Vec<OutlineItem> = Vec::new();
    match find_kind_child(parent, "class_body") {
        Some(b) => push_members(&parent.children[b].children, file_id, &mut out),
        None => push_members(&parent.children, file_id, &mut out),
    }
    out
}

// ── References ──────────────────────────────────────────────────────────────

/// An import reference to `name` over the range of `at`, before its file is
/// set.
pub open spec fn import_ref(name: Seq<char>, at: SyntaxNode) -> RefView {
    (Seq::empty(), ReferenceKind::Import, name, range_of(at))
}

/// The bound name of an import specifier: its alias, else its name.
pub open spec fn specifier_name(sp: SyntaxNode) -> Option<SyntaxNode> {
    match field_child(sp.children@, "alias"@) {
        Some(a) => Some(a),
        None => field_child(sp.children@, "name"@),
    }
}

/// The reference of one `{ ... }` import specifier.
pub open spec fn specifier_ref(sp: SyntaxNode) -> Seq<RefView> {
    if sp.kind@ == "import_specifier"@ {
        match specifier_name(sp) {
            Some(nn) => seq![import_ref(nn.text@, sp)],
            None => Seq::empty(),
        }
    } else {
        Seq::empty()
    }
}

/// The references of one part of an import clause.
pub open spec fn clause_part_refs(leaf: SyntaxNode) -> Seq<RefView> {
    if leaf.kind@ == "default_import"@ || leaf.kind@ == "identifier"@ {
        let name_node = if leaf.kind@ == "default_import"@ {
            kind_child(leaf.children@, "identifier"@)
        } else {
            Some(leaf)
        };
        match name_node {
            Some(nn) => seq![import_ref(nn.text@, leaf)],
            None => Seq::empty(),
        }
    } else if leaf.kind@ == "named_imports"@ {
        flat_map(leaf.children@, |sp: SyntaxNode| specifier_ref(sp))
    } else if leaf.kind@ == "namespace_import"@ {
        match kind_child(leaf.children@, "identifier"@) {
            Some(nn) => seq![import_ref(nn.text@, leaf)],
            None => Seq::empty(),
        }
    } else {
        Seq::empty()
    }
}

/// The references a top-level node makes: one per imported binding of an
/// import statement, one for the name an export statement declares.
pub open spec fn ts_refs(n: SyntaxNode) -> Seq<RefView> {
    if n.kind@ == "import_statement"@ {
        match kind_child(n.children@, "import_clause"@) {
            Some(c) => flat_map(c.children@, |leaf: SyntaxNode| clause_part_refs(leaf)),
            None => Seq::empty(),
        }
    } else if n.kind@ == "export_statement"@ {
        match declaration_child(n.children@) {
            Some(d) => match decl_name(d) {
                Some(name) => seq![(Seq::<char>::empty(), ReferenceKind::Export, name, range_of(d))],
                None => Seq::empty(),
            },
            None => Seq::empty(),
        }
    } else {
        Seq::empty()
    }
}

fn import_reference(name: &str, at: &SyntaxNode) -> (r: Reference)
    ensures
        reference_view(r) == import_ref(name@, *at),
{
    Reference { file_id: String::new(), kind: ReferenceKind::Import, target_name: name.to_owned(), range: node_range(at) }
}

proof fn lemma_views_push(v: Seq<Reference>, r: Reference)
    ensures
        reference_views(v.push(r)) == reference_views(v).push(reference_view(r)),
{
    assert(reference_views(v.push(r)) =~= reference_views(v).push(reference_view(r)));
}

fn specifier_refs_into(leaf: &SyntaxNode, out: &mut Vec<Reference>)
    ensures
        reference_views(final(out)@) == reference_views(old(out)@) + flat_map(leaf.children@, |sp: SyntaxNode| specifier_ref(sp)),
{
    let ghost f = |sp: SyntaxNode| specifier_ref(sp);
    let ghost base = reference_views(out@);
    proof {
        lemma_flat_map_all(leaf.children@, f);
    }
    let mut k: usize = 0;
    while k < leaf.children.len()
        invariant
            k <= leaf.children@.len(),
            f == (|sp: SyntaxNode| specifier_ref(sp)),
            reference_views(out@) == base + flat_map(leaf.children@.take(k as int), f),
        decreases leaf.children@.len() - k,
    {
        let sp = &leaf.children[k];
        proof {
            lemma_flat_map_step(leaf.children@, f, k as int);
        }
        let ghost prev = flat_map(leaf.children@.take(k as int), f);
        if str_eq(sp.kind.as_str(), "import_specifier") {
            let name_idx = match find_field_child(sp, "alias") {
                Some(a) => Some(a),
                None => find_field_child(sp, "name"),
            };
            match name_idx {
                Some(j) => {
                    let ghost o = out@;
                    out.push(import_reference(sp.children[j].text.as_str(), sp));
                    proof {
                        lemma_views_push(o, out@.last());
                        assert(base + flat_map(leaf.children@.take(k + 1), f) =~= (base + prev).push(
                            import_ref(sp.children@[j as int].text@, *sp),
                        ));
                    }
                },
                None => {
                    assert(base + flat_map(leaf.children@.take(k + 1), f) =~= base + prev);
                },
            }
        } else {
            assert(base + flat_map(leaf.children@.take(k + 1), f) =~= base + prev);
        }
        k = k + 1;
    }
}

fn clause_part_refs_into(leaf: &SyntaxNode, out: &mut Vec<Reference>)
    ensures
        reference_views(final(out)@) == reference_views(old(out)@) + clause_part_refs(*leaf),
{
    let ghost base = reference_views(out@);
    let kind = leaf.kind.as_str();
    if str_eq(kind, "default_import") || str_eq(kind, "identifier") {
        let name: Option<&str> = if str_eq(kind, "default_import") {
            match find_kind_child(leaf, "identifier") {
                Some(j) => Some(leaf.children[j].text.as_str()),
                None => None,
            }
        } else {
            Some(leaf.text.as_str())
        };
        match name {
            Some(nm) => {
                out.push(import_reference(nm, leaf));
                proof {
                    lemma_views_push(old(out)@, out@.last());
                    assert(out@ =~= old(out)@.push(out@.last()));
                }
            },
            None => {
                assert(base + Seq::<RefView>::empty() =~= base);
            },
        }
    } else if str_eq(kind, "named_imports") {
        specifier_refs_into(leaf, out);
    } else if str_eq(kind, "namespace_import") {
        match find_kind_child(leaf, "identifier") {
            Some(j) => {
                out.push(import_reference(leaf.children[j].text.as_str(), leaf));
                proof {
                    lemma_views_push(old(out)@, out@.last());
                    assert(out@ =~= old(out)@.push(out@.last()));
                }
            },
            None => {
                assert(base + Seq::<RefView>::empty() =~= base);
            },
        }
    } else {
        assert(base + Seq::<RefView>::empty() =~= base);
    }
}

/// The references of a top-level node, their file left empty.
fn ts_refs_exec(n: &SyntaxNode) -> (r: Vec<Reference>)
    ensures
        reference_views(r@) == ts_refs(*n),
{
    let mut out: Vec<Reference> = Vec::new();
    proof {
        assert(reference_views(out@) =~= Seq::<RefView>::empty());
    }
    if str_eq(n.kind.as_str(), "import_statement") {
        match find_kind_child(n, "import_clause") {
            Some(c) => {
                let clause = &n.children[c];
                let ghost f = |leaf: SyntaxNode| clause_part_refs(leaf);
                proof {
                    lemma_flat_map_all(clause.children@, f);
                }
                let mut k: usize = 0;
                while k < clause.children.len()
                    invariant
                        k <= clause.children@.len(),
                        f == (|leaf: SyntaxNode| clause_part_refs(leaf)),
                        reference_views(out@) == flat_map(clause.children@.take(k as int), f),
                    decreases clause.children@.len() - k,
                {
                    proof {
                        lemma_flat_map_step(clause.children@, f, k as int);
                    }
                    clause_part_refs_into(&clause.children[k], &mut out);
                    k = k + 1;
                }
            },
            None => {},
        }
    } else if str_eq(n.kind.as_str(), "export_statement") {
        match find_declaration_child(n) {
            Some(d) => {
                let decl = &n.children[d];
                match decl_name_exec(decl) {
                    Some(name) => {
                        out.push(
                            Reference {
                                file_id: String::new(),
                                kind: ReferenceKind::Export,
                                target_name: name,
                                range: node_range(decl),
                            },
                        );
                        proof {
                            assert(reference_views(out@) =~= seq![reference_view(out@[0])]);
                        }
                    },
                    None => {},
                }
            },
            None => {},
        }
    }
    out
}

// ── Arrow-valued class fields ───────────────────────────────────────────────

/// The symbol of a class field whose value is an arrow function.
pub open spec fn arrow_field_symbol(b: SyntaxNode, file_id: Seq<char>) -> Seq<SymbolView> {
    if is_field_definition(b) && has_arrow_child(b) {
        match field_child(b.children@, "name"@) {
            Some(nm) => seq![symbol_of(nm.text@, SymbolKind::ArrowFunction, file_id, b)],
            None => Seq::empty(),
        }
    } else {
        Seq::empty()
    }
}

/// The arrow field symbols of one child of a class.
pub open spec fn body_arrow_symbols(c: SyntaxNode, file_id: Seq<char>) -> Seq<SymbolView> {
    if c.kind@ == "class_body"@ {
        flat_map(c.children@, |b: SyntaxNode| arrow_field_symbol(b, file_id))
    } else {
        Seq::empty()
    }
}

/// One arrow-function symbol per arrow-valued field of a class.
pub open spec fn arrow_field_symbols(class_node: SyntaxNode, file_id: Seq<char>) -> Seq<SymbolView> {
    flat_map(class_node.children@, |c: SyntaxNode| body_arrow_symbols(c, file_id))
}

proof fn lemma_symbols_push(v: Seq<SymbolInfo>, s: SymbolInfo)
    ensures
        symbol_views(v.push(s)) == symbol_views(v).push(symbol_view(s)),
{
    assert(symbol_views(v.push(s)) =~= symbol_views(v).push(symbol_view(s)));
}

fn body_arrow_symbols_into(c: &SyntaxNode, file_id: &str, out: &mut Vec<SymbolInfo>)
    requires
        c.kind@ == "class_body"@,
    ensures
        symbol_views(final(out)@) == symbol_views(old(out)@) + body_arrow_symbols(*c, file_id@),
{
    let ghost f = |b: SyntaxNode| arrow_field_symbol(b, file_id@);
    let ghost base = symbol_views(out@);
    proof {
        lemma_flat_map_all(c.children@, f);
    }
    let mut k: usize = 0;
    while k < c.children.len()
        invariant
            k <= c.children@.len(),
            f == (|b: SyntaxNode| arrow_field_symbol(b, file_id@)),
            symbol_views(out@) == base + flat_map(c.children@.take(k as int), f),
        decreases c.children@.len() - k,
    {
        let b = &c.children[k];
        proof {
            lemma_flat_map_step(c.children@, f, k as int);
        }
        let ghost prev = flat_map(c.children@.take(k as int), f);
        let is_field = str_eq(b.kind.as_str(), "public_field_definition") || str_eq(b.kind.as_str(), "field_definition");
        if is_field && has_arrow_child_exec(b) {
            match find_field_child(b, "name") {
                Some(j) => {
                    let ghost o = out@;
                    out.push(symbol_at(b.children[j].text.as_str(), SymbolKind::ArrowFunction, file_id, b));
                    proof {
                        lemma_symbols_push(o, out@.last());
                        assert(base + flat_map(c.children@.take(k + 1), f) =~= (base + prev).push(
                            symbol_of(b.children@[j as int].text@, SymbolKind::ArrowFunction, file_id@, *b),
                        ));
                    }
                },
                None => {
                    assert(base + flat_map(c.children@.take(k + 1), f) =~= base + prev);
                },
            }
        } else {
            assert(base + flat_map(c.children@.take(k + 1), f) =~= base + prev);
        }
        k = k + 1;
    }
}

/// Appends the symbols of the arrow-valued fields of a class.
fn collect_arrow_field_symbols(class_node: &SyntaxNode, file_id: &str, out: &mut Vec<SymbolInfo>)
    ensures
        symbol_views(final(out)@) == symbol_views(old(out)@) + arrow_field_symbols(*class_node, file_id@),
{
    let ghost f = |c: SyntaxNode| body_arrow_symbols(c, file_id@);
    let ghost base = symbol_views(out@);
    proof {
        lemma_flat_map_all(class_node.children@, f);
    }
    let mut k: usize = 0;
    while k < class_node.children.len()
        invariant
            k <= class_node.children@.len(),
            f == (|c: SyntaxNode| body_arrow_symbols(c, file_id@)),
            symbol_views(out@) == base + flat_map(class_node.children@.take(k as int), f),
        decreases class_node.children@.len() - k,
    {
        proof {
            lemma_flat_map_step(class_node.children@, f, k as int);
        }
        let c = &class_node.children[k];
        if str_eq(c.kind.as_str(), "class_body") {
            body_arrow_symbols_into(c, file_id, out);
            assert(base + flat_map(class_node.children@.take(k + 1), f) =~= base + flat_map(
                class_node.children@.take(k as int),
                f,
            ) + body_arrow_symbols(*c, file_id@));
        } else {
            assert(base + flat_map(class_node.children@.take(k + 1), f) =~= base + flat_map(
                class_node.children@.take(k as int),
                f,
            ));
        }
        k = k + 1;
    }
}

// ── Imports ─────────────────────────────────────────────────────────────────

/// A quote character.
pub open spec fn is_quote(c: char) -> bool {
    c == '\'' || c == '"'
}

/// Leading quotes removed.
pub open spec fn trim_start_quotes(s: Seq<char>) -> Seq<char>
    decreases s.len(),
{
    if s.len() > 0 && is_quote(s[0]) { trim_start_quotes(s.drop_first()) } else { s }
}

/// Trailing quotes removed.
pub open spec fn trim_end_quotes(s: Seq<char>) -> Seq<char>
    decreases s.len(),
{
    if s.len() > 0 && is_quote(s.last()) { trim_end_quotes(s.drop_last()) } else { s }
}

/// Quotes removed from both ends (`trim_matches` on `'` and `"`).
pub open spec fn trim_quotes(s: Seq<char>) -> Seq<char> {
    trim_end_quotes(trim_start_quotes(s))
}

fn trim_quotes_exec(s: &str) -> (r: String)
    ensures
        r@ == trim_quotes(s@),
{
    let cs = chars_of(s);
    let mut a: usize = 0;
    proof {
        assert(cs@.skip(0) =~= cs@);
    }
    while a < cs.len() && (cs[a] == '\'' || cs[a] == '"')
        invariant
            a <= cs@.len(),
            trim_start_quotes(s@) == trim_start_quotes(cs@.skip(a as int)),
            cs@ == s@,
        decreases cs@.len() - a,
    {
        assert(cs@.skip(a as int).drop_first() =~= cs@.skip(a + 1));
        a = a + 1;
    }
    let mut b: usize = cs.len();
    proof {
        assert(cs@.skip(a as int) =~= cs@.subrange(a as int, b as int));
    }
    while b > a && (cs[b - 1] == '\'' || cs[b - 1] == '"')
        invariant
            a <= b <= cs@.len(),
            trim_quotes(s@) == trim_end_quotes(cs@.subrange(a as int, b as int)),
            cs@ == s@,
        decreases b,
    {
        assert(cs@.subrange(a as int, b as int).drop_last() =~= cs@.subrange(a as int, b - 1));
        b = b - 1;
    }
    let mut r = String::new();
    let mut k = a;
    while k < b
        invariant
            a <= k <= b,
            b <= cs@.len(),
            r@ == cs@.subrange(a as int, k as int),
        decreases b - k,
    {
        crate::text::push_char(&mut r, cs[k]);
        assert(cs@.subrange(a as int, k + 1) =~= cs@.subrange(a as int, k as int).push(cs@[k as int]));
        k = k + 1;
    }
    r
}

/// Views of an optional string.
pub open spec fn opt_view(o: Option<String>) -> Option<Seq<char>> {
    match o {
        Some(s) => Some(s@),
        None => None,
    }
}

/// What an import records, apart from its id: source file, resolved target
/// file, module, imported names, default and type-only flags.
pub type ImportView = (Seq<char>, Option<Seq<char>>, Option<Seq<char>>, Seq<Seq<char>>, bool, bool);

/// The view of an import.
pub open spec fn import_view(i: ImportInfo) -> ImportView {
    (i.source_file_id@, opt_view(i.target_file_id), opt_view(i.target_module), i.imports@.map_values(|x: String| x@), i.is_default, i.is_type)
}

/// Views of imports.
pub open spec fn import_views(v: Seq<ImportInfo>) -> Seq<ImportView> {
    v.map_values(|i: ImportInfo| import_view(i))
}

/// The texts of the `specifiers` children of an import statement.
pub open spec fn specifier_texts(n: SyntaxNode) -> Seq<Seq<char>> {
    match field_child(n.children@, "specifiers"@) {
        Some(sp) => sp.children@.map_values(|c: SyntaxNode| c.text@),
        None => Seq::empty(),
    }
}

/// The import recorded for an import statement of file `file_id`.
pub open spec fn ts_import_of(n: SyntaxNode, file_id: Seq<char>) -> ImportView {
    let names = specifier_texts(n);
    (
        file_id,
        None,
        match field_child(n.children@, "source"@) {
            Some(src) => Some(trim_quotes(src.text@)),
            None => None,
        },
        names,
        names.contains("default"@),
        has_substring(n.text@, "import type"@),
    )
}

pub(crate) fn import_of(n: &SyntaxNode, file_id: &str) -> (r: ImportInfo)
    ensures
        import_view(r) == ts_import_of(*n, file_id@),
{
    let target_module = match find_field_child(n, "source") {
        Some(j) => Some(trim_quotes_exec(n.children[j].text.as_str())),
        None => None,
    };
    let mut names: Vec<String> = Vec::new();
    let mut is_default = false;
    match find_field_child(n, "specifiers") {
        Some(j) => {
            let sp = &n.children[j];
            let mut k: usize = 0;
            while k < sp.children.len()
                invariant
                    k <= sp.children@.len(),
                    names@.len() == k,
                    forall|q: int| 0 <= q < k ==> (#[trigger] names@[q])@ == sp.children@[q].text@,
                    is_default == (exists|q: int| 0 <= q < k && (#[trigger] names@[q])@ == "default"@),
                decreases sp.children@.len() - k,
            {
                let t = sp.children[k].text.clone();
                let d = str_eq(t.as_str(), "default");
                let ghost n0 = names@;
                let ghost was = is_default;
                names.push(t);
                is_default = is_default || d;
                proof {
                    if d {
                        assert(names@[k as int]@ == "default"@);
                    }
                    if was {
                        let q = choose|q: int| 0 <= q < k && (#[trigger] n0[q])@ == "default"@;
                        assert(names@[q] == n0[q]);
                    }
                    if exists|q: int| 0 <= q < k + 1 && (#[trigger] names@[q])@ == "default"@ {
                        let q = choose|q: int| 0 <= q < k + 1 && (#[trigger] names@[q])@ == "default"@;
                        if q < k {
                            assert(names@[q] == n0[q]);
                        }
                    }
                }
                k = k + 1;
            }
            proof {
                let nv = names@.map_values(|x: String| x@);
                assert(nv =~= sp.children@.map_values(|c: SyntaxNode| c.text@));
                if is_default {
                    let q = choose|q: int| 0 <= q < names@.len() && (#[trigger] names@[q])@ == "default"@;
                    assert(nv[q] == "default"@);
                }
                if nv.contains("default"@) {
                    let q = choose|q: int| 0 <= q < nv.len() && nv[q] == "default"@;
                    assert(names@[q]@ == "default"@);
                }
            }
        },
        None => {
            assert(names@.map_values(|x: String| x@) =~= Seq::<Seq<char>>::empty());
        },
    }
    let is_type = str_contains(n.text.as_str(), "import type");
    ImportInfo {
        id: crate::ports::new_uuid_text(),
        source_file_id: file_id.to_owned(),
        target_file_id: None,
        target_module,
        imports: names,
        is_default,
        is_type,
    }
}

// ── Top-level nodes ─────────────────────────────────────────────────────────

/// The declaration an export statement wraps, if `n` is one.
pub open spec fn exported_decl(n: SyntaxNode) -> Option<SyntaxNode> {
    if n.kind@ == "export_statement"@ {
        declaration_child(n.children@)
    } else {
        None
    }
}

/// The symbol kind of a top-level node or of the declaration it exports.
pub open spec fn target_kind(n: SyntaxNode) -> Option<SymbolKind> {
    match ts_symbol_kind(n.kind@) {
        Some(k) => Some(k),
        None => match exported_decl(n) {
            Some(d) => ts_symbol_kind(d.kind@),
            None => None,
        },
    }
}

/// The node that declares the symbol: `n` itself for a declaration, the
/// wrapped declaration for an export.
pub open spec fn symbol_node(n: SyntaxNode) -> Option<SyntaxNode> {
    if ts_symbol_kind(n.kind@) is Some {
        Some(n)
    } else {
        exported_decl(n)
    }
}

/// The main symbol of a top-level node.
pub open spec fn main_symbol(n: SyntaxNode, file_id: Seq<char>) -> Seq<SymbolView> {
    match (target_kind(n), symbol_node(n)) {
        (Some(sk), Some(sn)) => match decl_name(sn) {
            Some(name) => seq![symbol_of(name, sk, file_id, sn)],
            None => Seq::empty(),
        },
        _ => Seq::empty(),
    }
}

/// Arrow-field symbols of a top-level class, exported or not.
pub open spec fn extra_symbols(n: SyntaxNode, file_id: Seq<char>) -> Seq<SymbolView> {
    if n.kind@ == "class_declaration"@ {
        arrow_field_symbols(n, file_id)
    } else {
        match exported_decl(n) {
            Some(d) => if d.kind@ == "class_declaration"@ { arrow_field_symbols(d, file_id) } else { Seq::empty() },
            None => Seq::empty(),
        }
    }
}

/// `n` is an import statement.
pub open spec fn is_import(n: SyntaxNode) -> bool {
    n.kind@ == "import_statement"@
}

/// The symbols of a top-level node.
pub open spec fn node_symbols(n: SyntaxNode, file_id: Seq<char>) -> Seq<SymbolView> {
    if is_import(n) {
        Seq::empty()
    } else {
        main_symbol(n, file_id) + extra_symbols(n, file_id)
    }
}

/// The imports of a top-level node.
pub open spec fn node_imports(n: SyntaxNode, file_id: Seq<char>) -> Seq<ImportView> {
    if is_import(n) {
        seq![ts_import_of(n, file_id)]
    } else {
        Seq::empty()
    }
}

/// The outline entry of a top-level node.
pub open spec fn node_outline(n: SyntaxNode) -> Seq<OutlineEntry> {
    if is_import(n) {
        Seq::empty()
    } else {
        match (target_kind(n), symbol_node(n)) {
            (Some(sk), Some(on)) => match (symbol_outline_kind(sk), decl_name(on)) {
                (Some(ok), Some(name)) => seq![(ok, on, name)],
                _ => Seq::empty(),
            },
            _ => Seq::empty(),
        }
    }
}

/// The file's lexical kind after one more top-level node: an arrow
/// function wins, a function beats a constant.
pub open spec fn lexical_step(acc: LexicalValueKind, n: SyntaxNode) -> LexicalValueKind {
    if is_import(n) {
        acc
    } else {
        let k = ts_lexical_kind(n);
        if k == LexicalValueKind::ArrowFunction {
            LexicalValueKind::ArrowFunction
        } else if acc == LexicalValueKind::Const && k == LexicalValueKind::Function {
            LexicalValueKind::Function
        } else {
            acc
        }
    }
}

/// The file's lexical kind from its top-level nodes.
pub open spec fn lexical_fold(ns: Seq<SyntaxNode>) -> LexicalValueKind
    decreases ns.len(),
{
    if ns.len() == 0 {
        LexicalValueKind::Const
    } else {
        lexical_step(lexical_fold(ns.drop_last()), ns.last())
    }
}

/// `os` are the outline items of `entries`, each with its members as
/// children.
pub open spec fn outline_ok(os: Seq<OutlineItem>, file_id: Seq<char>, entries: Seq<OutlineEntry>) -> bool {
    &&& os.len() == entries.len()
    &&& forall|i: int|
        0 <= i < os.len() ==> outline_leaf(#[trigger] os[i], file_id, entries[i].0, entries[i].1, entries[i].2)
            && leaves_ok(os[i].children@, file_id, members(entries[i].1))
}

/// What extraction from a TypeScript tree produces.
pub open spec fn ts_extraction(r: ParseResult, root: SyntaxNode, file_id: Seq<char>) -> bool {
    &&& symbol_views(r.symbols@) == flat_map(root.children@, |n: SyntaxNode| node_symbols(n, file_id))
    &&& import_views(r.imports@) == flat_map(root.children@, |n: SyntaxNode| node_imports(n, file_id))
    &&& outline_ok(r.outline@, file_id, flat_map(root.children@, |n: SyntaxNode| node_outline(n)))
    &&& reference_views(r.references@) == with_file(file_id, flat_map(root.children@, |n: SyntaxNode| ts_refs(n)))
    &&& r.lexical_kind == lexical_fold(root.children@)
}

proof fn lemma_with_file_concat(f: Seq<char>, a: Seq<RefView>, b: Seq<RefView>)
    ensures
        with_file(f, a + b) == with_file(f, a) + with_file(f, b),
{
    assert(with_file(f, a + b) =~= with_file(f, a) + with_file(f, b));
}

/// Extracts symbols, imports, outline, references and lexical kind from the
/// top-level nodes of a TypeScript syntax tree.
pub fn extract_typescript(root: &SyntaxNode, file_id: &str) -> (r: ParseResult)
    ensures
        ts_extraction(r, *root, file_id@),
{
    let ghost fs = |n: SyntaxNode| node_symbols(n, file_id@);
    let ghost fi = |n: SyntaxNode| node_imports(n, file_id@);
    let ghost fo = |n: SyntaxNode| node_outline(n);
    let ghost fr = |n: SyntaxNode| ts_refs(n);
    let ghost ns = root.children@;
    let mut symbols: Vec<SymbolInfo> = Vec::new();
    let mut imports: Vec<ImportInfo> = Vec::new();
    let mut outline: Vec<OutlineItem> = Vec::new();
    let mut references: Vec<Reference> = Vec::new();
    let mut lexical = LexicalValueKind::Const;
    proof {
        lemma_flat_map_all(ns, fs);
        lemma_flat_map_all(ns, fi);
        lemma_flat_map_all(ns, fo);
        lemma_flat_map_all(ns, fr);
        assert(symbol_views(symbols@) =~= Seq::<SymbolView>::empty());
        assert(import_views(imports@) =~= Seq::<ImportView>::empty());
        assert(reference_views(references@) =~= with_file(file_id@, Seq::<RefView>::empty()));
        assert(ns.take(0) =~= Seq::<SyntaxNode>::empty());
    }
    let mut k: usize = 0;
    while k < root.children.len()
        invariant
            k <= ns.len(),
            ns == root.children@,
            fs == (|n: SyntaxNode| node_symbols(n, file_id@)),
            fi == (|n: SyntaxNode| node_imports(n, file_id@)),
            fo == (|n: SyntaxNode| node_outline(n)),
            fr == (|n: SyntaxNode| ts_refs(n)),
            symbol_views(symbols@) == flat_map(ns.take(k as int), fs),
            import_views(imports@) == flat_map(ns.take(k as int), fi),
            outline_ok(outline@, file_id@, flat_map(ns.take(k as int), fo)),
            reference_views(references@) == with_file(file_id@, flat_map(ns.take(k as int), fr)),
            lexical == lexical_fold(ns.take(k as int)),
        decreases ns.len() - k,
    {
        let n = &root.children[k];
        proof {
            lemma_flat_map_step(ns, fs, k as int);
            lemma_flat_map_step(ns, fi, k as int);
            lemma_flat_map_step(ns, fo, k as int);
            lemma_flat_map_step(ns, fr, k as int);
            assert(ns.take(k + 1).drop_last() =~= ns.take(k as int));
            assert(ns.take(k + 1).last() == *n);
        }
        // References.
        let mut refs = ts_refs_exec(n);
        set_reference_file(&mut refs, file_id);
        let ghost rv0 = reference_views(references@);
        let ghost rv1 = reference_views(refs@);
        references.append(&mut refs);
        proof {
            assert(reference_views(references@) =~= rv0 + rv1);
            lemma_with_file_concat(file_id@, flat_map(ns.take(k as int), fr), ts_refs(*n));
        }
        if str_eq(n.kind.as_str(), "import_statement") {
            let ghost iv0 = import_views(imports@);
            imports.push(import_of(n, file_id));
            proof {
                assert(import_views(imports@) =~= iv0.push(import_view(imports@.last())));
                assert(symbol_views(symbols@) =~= symbol_views(symbols@) + Seq::<SymbolView>::empty());
                assert(flat_map(ns.take(k as int), fo) + node_outline(*n) =~= flat_map(ns.take(k as int), fo));
                assert(flat_map(ns.take(k as int), fs) + node_symbols(*n, file_id@) =~= flat_map(ns.take(k as int), fs));
            }
        } else {
            proof {
                assert(flat_map(ns.take(k as int), fi) + node_imports(*n, file_id@) =~= flat_map(ns.take(k as int), fi));
            }
            let ghost sv0 = symbol_views(symbols@);
            // The declaring node and kind.
            let direct = ts_symbol_kind_exec(n.kind.as_str());
            let decl: Option<usize> = if str_eq(n.kind.as_str(), "export_statement") {
                find_declaration_child(n)
            } else {
                None
            };
            let sym_node: Option<&SyntaxNode> = match direct {
                Some(_) => Some(n),
                None => match decl {
                    Some(d) => Some(&n.children[d]),
                    None => None,
                },
            };
            let tkind: Option<SymbolKind> = match direct {
                Some(sk) => Some(sk),
                None => match decl {
                    Some(d) => ts_symbol_kind_exec(n.children[d].kind.as_str()),
                    None => None,
                },
            };
            proof {
                assert(exported_decl(*n) == match decl {
                    Some(d) => Some(n.children@[d as int]),
                    None => None::<SyntaxNode>,
                });
                assert(target_kind(*n) == tkind);
                assert(symbol_node(*n) == match sym_node {
                    Some(x) => Some(*x),
                    None => None::<SyntaxNode>,
                });
            }
            match (tkind, sym_node) {
                (Some(sk), Some(sn)) => {
                    match decl_name_exec(sn) {
                        Some(name) => {
                            // Symbol.
                            let ghost s0 = symbols@;
                            symbols.push(symbol_at(name.as_str(), sk, file_id, sn));
                            proof {
                                lemma_symbols_push(s0, symbols@.last());
                            }
                            // Outline item.
                            match symbol_outline_kind_exec(sk) {
                                Some(ok) => {
                                    let children = extract_children(sn, file_id);
                                    let ghost o0 = outline@;
                                    let ghost prev = flat_map(ns.take(k as int), fo);
                                    outline.push(outline_item(file_id, ok, sn, name.as_str(), children));
                                    proof {
                                        assert(flat_map(ns.take(k + 1), fo) =~= prev.push((ok, *sn, name@)));
                                        assert forall|i: int| 0 <= i < outline@.len() implies outline_leaf(
                                            #[trigger] outline@[i],
                                            file_id@,
                                            flat_map(ns.take(k + 1), fo)[i].0,
                                            flat_map(ns.take(k + 1), fo)[i].1,
                                            flat_map(ns.take(k + 1), fo)[i].2,
                                        ) && leaves_ok(outline@[i].children@, file_id@, members(flat_map(ns.take(k + 1), fo)[i].1)) by {
                                            if i < o0.len() {
                                                assert(outline@[i] == o0[i]);
                                            }
                                        }
                                    }
                                },
                                None => {
                                    assert(flat_map(ns.take(k + 1), fo) =~= flat_map(ns.take(k as int), fo));
                                },
                            }
                        },
                        None => {
                            assert(flat_map(ns.take(k + 1), fo) =~= flat_map(ns.take(k as int), fo));
                        },
                    }
                },
                _ => {
                    assert(flat_map(ns.take(k + 1), fo) =~= flat_map(ns.take(k as int), fo));
                },
            }
            let ghost sv1 = symbol_views(symbols@);
            proof {
                assert(sv1 == sv0 + main_symbol(*n, file_id@)) by {
                    assert(sv0 + Seq::<SymbolView>::empty() =~= sv0);
                }
            }
            // Arrow-valued fields of a class.
            if str_eq(n.kind.as_str(), "class_declaration") {
                collect_arrow_field_symbols(n, file_id, &mut symbols);
            } else {
                match decl {
                    Some(d) => {
                        if str_eq(n.children[d].kind.as_str(), "class_declaration") {
                            collect_arrow_field_symbols(&n.children[d], file_id, &mut symbols);
                        } else {
                            assert(sv1 + Seq::<SymbolView>::empty() =~= sv1);
                        }
                    },
                    None => {
                        assert(sv1 + Seq::<SymbolView>::empty() =~= sv1);
                    },
                }
            }
            proof {
                assert(symbol_views(symbols@) == sv1 + extra_symbols(*n, file_id@));
                assert(flat_map(ns.take(k + 1), fs) =~= sv0 + (main_symbol(*n, file_id@) + extra_symbols(*n, file_id@)));
            }
            // Lexical kind.
            let lk = ts_lexical_kind_exec(n);
            match lk {
                LexicalValueKind::ArrowFunction => {
                    lexical = LexicalValueKind::ArrowFunction;
                },
                LexicalValueKind::Function => {
                    match lexical {
                        LexicalValueKind::Const => {
                            lexical = LexicalValueKind::Function;
                        },
                        _ => {},
                    }
                },
                _ => {},
            }
        }
        k = k + 1;
    }
    ParseResult { symbols, imports, outline, lexical_kind: lexical, references }
}

// ── The parser ──────────────────────────────────────────────────────────────

/// The grammar for a path: TSX for `.tsx` and `.jsx` files, TypeScript
/// otherwise.
pub open spec fn grammar_for_path(path: Seq<char>) -> crate::syntax::Grammar {
    if crate::text::has_suffix(path, ".tsx"@) || crate::text::has_suffix(path, ".jsx"@) {
        crate::syntax::Grammar::Tsx
    } else {
        crate::syntax::Grammar::TypeScript
    }
}

/// Parser for TypeScript, TSX, JavaScript and JSX.
#[derive(Debug, Clone, Copy, Default)]
pub struct TypeScriptParser;

impl TypeScriptParser {
    pub fn new() -> Self {
        TypeScriptParser
    }
}

impl LanguageParser for TypeScriptParser {
    fn language_id(&self) -> (r: &'static str)
        ensures
            r@ == "typescript"@,
    {
        "typescript"
    }

    open spec fn handled(&self) -> Seq<Seq<char>> {
        seq!["ts"@, "tsx"@, "js"@, "jsx"@]
    }

    fn extensions(&self) -> (r: &'static [&'static str]) {
        let r: &'static [&'static str] = &["ts", "tsx", "js", "jsx"];
        proof {
            assert(r@.map_values(|e: &str| e@) =~= seq!["ts"@, "tsx"@, "js"@, "jsx"@]);
        }
        r
    }

    fn lexical_kind_for(&self, node: &SyntaxNode, source: &str) -> (r: LexicalValueKind)
        ensures
            r == ts_lexical_kind(*node),
    {
        ts_lexical_kind_exec(node)
    }

    fn extract_references(&self, node: &SyntaxNode, source: &str) -> (r: Vec<Reference>)
        ensures
            reference_views(r@) == ts_refs(*node),
    {
        ts_refs_exec(node)
    }

    /// Parses `source` with the grammar of `path` and extracts from the
    /// tree; an empty result when the source cannot be parsed.
    open spec fn parses(&self, source: Seq<char>, path: Seq<char>, file_id: Seq<char>, r: ParseResult) -> bool {
        match crate::syntax::syntax_tree(source, grammar_for_path(path)) {
            Some(root) => ts_extraction(r, root, file_id),
            None => r.is_empty_result(),
        }
    }

    fn parse_all(&self, source: &str, path: &str, file_id: &str) -> (r: ParseResult)
        ensures
            match crate::syntax::syntax_tree(source@, grammar_for_path(path@)) {
                Some(root) => ts_extraction(r, root, file_id@),
                None => r.is_empty_result(),
            },
    {
        let grammar = if str_ends_with(path, ".tsx") || str_ends_with(path, ".jsx") {
            crate::syntax::Grammar::Tsx
        } else {
            crate::syntax::Grammar::TypeScript
        };
        match crate::syntax::parse_syntax(source, grammar) {
            Some(root) => extract_typescript(&root, file_id),
            None => ParseResult::default(),
        }
    }
}

} // verus!

