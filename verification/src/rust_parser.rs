//! Rust parser: item symbols, `use` imports with their references, an
//! outline of items (impl blocks with their methods) and the file's
//! lexical kind, from the top-level items of one syntax tree.

use vstd::prelude::*;
use crate::context::is_space;
use crate::models::{ImportInfo, LexicalValueKind, OutlineItem, OutlineItemKind, ParseResult, Reference, ReferenceKind, SymbolInfo, SymbolKind};
use crate::parser::{
    node_range, outline_item, outline_leaf, range_of, reference_view, reference_views, rust_node_kind_to_outline_kind,
    rust_outline_kind, set_reference_file, symbol_at, symbol_of, symbol_view, symbol_views, with_file, LanguageParser,
};
use crate::syntax::{field_child, find_field_child, flat_map, lemma_flat_map_all, lemma_flat_map_step, SyntaxNode};
use crate::text::{chars_of, has_prefix, matches_at, occurs_at, push_char, str_eq};
use crate::ts_parser::{import_view, import_views, leaves_ok, ImportView, OutlineEntry, RefView, SymbolView};

verus! {

broadcast use vstd::seq_lib::group_seq_properties;

// ── Text of `use` declarations ──────────────────────────────────────────────

/// Leading whitespace removed.
pub open spec fn trim_start_ws(s: Seq<char>) -> Seq<char>
    decreases s.len(),
{
    if s.len() > 0 && is_space(s[0]) { trim_start_ws(s.drop_first()) } else { s }
}

/// Trailing whitespace removed.
pub open spec fn trim_end_ws(s: Seq<char>) -> Seq<char>
    decreases s.len(),
{
    if s.len() > 0 && is_space(s.last()) { trim_end_ws(s.drop_last()) } else { s }
}

/// Whitespace removed from both ends (`str::trim`).
pub open spec fn trim_ws(s: Seq<char>) -> Seq<char> {
    trim_end_ws(trim_start_ws(s))
}

/// Every leading `p` removed (`trim_start_matches` with a non-empty
/// pattern).
pub open spec fn strip_leading(s: Seq<char>, p: Seq<char>) -> Seq<char>
    decreases s.len(),
{
    if p.len() > 0 && has_prefix(s, p) { strip_leading(s.skip(p.len() as int), p) } else { s }
}

/// Every trailing `c` removed.
pub open spec fn strip_trailing(s: Seq<char>, c: char) -> Seq<char>
    decreases s.len(),
{
    if s.len() > 0 && s.last() == c { strip_trailing(s.drop_last(), c) } else { s }
}

/// Position of the first `::` at or after `i`, or the length of `s`.
pub open spec fn sep_from(s: Seq<char>, i: int) -> int
    decreases s.len() - i,
{
    if i < 0 || i >= s.len() {
        s.len() as int
    } else if occurs_at(s, "::"@, i) {
        i
    } else {
        sep_from(s, i + 1)
    }
}

/// The part of `s` before its first `::` (`split("::").next()`).
pub open spec fn first_segment(s: Seq<char>) -> Seq<char> {
    s.take(sep_from(s, 0))
}

/// Position of the last `::` that starts before `i`, if any.
pub open spec fn last_sep_before(s: Seq<char>, i: int) -> Option<int>
    decreases i,
{
    if i <= 0 {
        None
    } else if occurs_at(s, "::"@, i - 1) {
        Some(i - 1)
    } else {
        last_sep_before(s, i - 1)
    }
}

/// The part of `s` after its last `::` (`rsplit("::").next()`).
pub open spec fn last_segment(s: Seq<char>) -> Seq<char> {
    match last_sep_before(s, s.len() as int) {
        Some(p) => s.skip(p + 2),
        None => s,
    }
}

/// A brace or whitespace.
pub open spec fn brace_or_space(c: char) -> bool {
    c == '{' || c == '}' || is_space(c)
}

/// Braces and whitespace removed from both ends.
pub open spec fn trim_braces(s: Seq<char>) -> Seq<char> {
    trim_end_by(trim_start_by(s))
}

pub open spec fn trim_start_by(s: Seq<char>) -> Seq<char>
    decreases s.len(),
{
    if s.len() > 0 && brace_or_space(s[0]) { trim_start_by(s.drop_first()) } else { s }
}

pub open spec fn trim_end_by(s: Seq<char>) -> Seq<char>
    decreases s.len(),
{
    if s.len() > 0 && brace_or_space(s.last()) { trim_end_by(s.drop_last()) } else { s }
}

/// The path of a `use` declaration: trimmed, without the `use ` keyword
/// and the final semicolons.
pub open spec fn use_path(text: Seq<char>) -> Seq<char> {
    strip_trailing(strip_leading(trim_ws(text), "use "@), ';')
}

/// The module a `use` declaration imports from: the first segment of its
/// path.
pub open spec fn use_module(text: Seq<char>) -> Seq<char> {
    first_segment(use_path(text))
}

/// The name a `use` declaration brings in: the last segment of its path,
/// without braces; empty for glob imports and for paths relative to
/// `self`, `super` or `crate`, which need cross-file resolution.
pub open spec fn use_target(text: Seq<char>) -> Seq<char> {
    let cleaned = trim_ws(use_path(text));
    let first = trim_ws(first_segment(cleaned));
    if first == "self"@ || first == "super"@ || first == "crate"@ || first == "*"@ || first.len() == 0 {
        Seq::empty()
    } else {
        let last = trim_ws(last_segment(cleaned));
        if last == "*"@ {
            Seq::empty()
        } else {
            trim_braces(last)
        }
    }
}

fn is_space_char(c: char) -> (r: bool)
    ensures
        r == is_space(c),
{
    let v = c as u32;
    (0x09 <= v && v <= 0x0d) || v == 0x20 || v == 0x85 || v == 0xa0 || v == 0x1680 || (0x2000 <= v && v <= 0x200a)
        || v == 0x2028 || v == 0x2029 || v == 0x202f || v == 0x205f || v == 0x3000
}

fn trim_ws_exec(s: &Vec<char>) -> (r: Vec<char>)
    ensures
        r@ == trim_ws(s@),
{
    let mut a: usize = 0;
    assert(s@.skip(0) =~= s@);
    while a < s.len() && is_space_char(s[a])
        invariant
            a <= s@.len(),
            trim_start_ws(s@) == trim_start_ws(s@.skip(a as int)),
        decreases s@.len() - a,
    {
        assert(s@.skip(a as int).drop_first() =~= s@.skip(a + 1));
        a = a + 1;
    }
    let mut b: usize = s.len();
    assert(s@.skip(a as int) =~= s@.subrange(a as int, b as int));
    while b > a && is_space_char(s[b - 1])
        invariant
            a <= b <= s@.len(),
            trim_ws(s@) == trim_end_ws(s@.subrange(a as int, b as int)),
        decreases b,
    {
        assert(s@.subrange(a as int, b as int).drop_last() =~= s@.subrange(a as int, b - 1));
        b = b - 1;
    }
    slice_chars(s, a, b)
}

fn slice_chars(s: &Vec<char>, a: usize, b: usize) -> (r: Vec<char>)
    requires
        a <= b <= s@.len(),
    ensures
        r@ == s@.subrange(a as int, b as int),
{
    let mut r: Vec<char> = Vec::new();
    let mut k = a;
    while k < b
        invariant
            a <= k <= b,
            b <= s@.len(),
            r@ == s@.subrange(a as int, k as int),
        decreases b - k,
    {
        r.push(s[k]);
        assert(s@.subrange(a as int, k + 1) =~= s@.subrange(a as int, k as int).push(s@[k as int]));
        k = k + 1;
    }
    r
}

fn trim_braces_exec(s: &Vec<char>) -> (r: Vec<char>)
    ensures
        r@ == trim_braces(s@),
{
    let mut a: usize = 0;
    assert(s@.skip(0) =~= s@);
    while a < s.len() && (s[a] == '{' || s[a] == '}' || is_space_char(s[a]))
        invariant
            a <= s@.len(),
            trim_start_by(s@) == trim_start_by(s@.skip(a as int)),
        decreases s@.len() - a,
    {
        assert(s@.skip(a as int).drop_first() =~= s@.skip(a + 1));
        a = a + 1;
    }
    let mut b: usize = s.len();
    assert(s@.skip(a as int) =~= s@.subrange(a as int, b as int));
    while b > a && (s[b - 1] == '{' || s[b - 1] == '}' || is_space_char(s[b - 1]))
        invariant
            a <= b <= s@.len(),
            trim_braces(s@) == trim_end_by(s@.subrange(a as int, b as int)),
        decreases b,
    {
        assert(s@.subrange(a as int, b as int).drop_last() =~= s@.subrange(a as int, b - 1));
        b = b - 1;
    }
    slice_chars(s, a, b)
}

fn use_path_exec(text: &str) -> (r: Vec<char>)
    ensures
        r@ == use_path(text@),
{
    let cs = chars_of(text);
    let t = trim_ws_exec(&cs);
    let kw = chars_of("use ");
    proof {
        reveal_strlit("use ");
    }
    let mut a: usize = 0;
    assert(t@.skip(0) =~= t@);
    while 4 <= t.len() - a && matches_at(t.as_slice(), kw.as_slice(), a)
        invariant
            a <= t@.len(),
            kw@ == "use "@,
            kw@.len() == 4,
            strip_leading(trim_ws(text@), "use "@) == strip_leading(t@.skip(a as int), "use "@),
            t@ == trim_ws(text@),
        decreases t@.len() - a,
    {
        assert(t@.skip(a as int).take(4) =~= t@.subrange(a as int, a + 4));
        assert(t@.skip(a as int).skip(4) =~= t@.skip(a + 4));
        a = a + 4;
    }
    proof {
        if a + 4 <= t@.len() {
            assert(t@.skip(a as int).take(4) =~= t@.subrange(a as int, a + 4));
        }
    }
    let mut b: usize = t.len();
    assert(t@.skip(a as int) =~= t@.subrange(a as int, b as int));
    while b > a && t[b - 1] == ';'
        invariant
            a <= b <= t@.len(),
            use_path(text@) == strip_trailing(t@.subrange(a as int, b as int), ';'),
        decreases b,
    {
        assert(t@.subrange(a as int, b as int).drop_last() =~= t@.subrange(a as int, b - 1));
        b = b - 1;
    }
    slice_chars(&t, a, b)
}

fn sep_at(s: &Vec<char>, i: usize) -> (r: bool)
    requires
        i < s@.len(),
    ensures
        r == occurs_at(s@, "::"@, i as int),
{
    proof {
        reveal_strlit("::");
    }
    if 2 <= s.len() - i && s[i] == ':' && s[i + 1] == ':' {
        assert(s@.subrange(i as int, i + 2) =~= "::"@);
        true
    } else {
        proof {
            if i + 2 <= s@.len() {
                assert(s@.subrange(i as int, i + 2)[0] == s@[i as int]);
                assert(s@.subrange(i as int, i + 2)[1] == s@[i + 1]);
            }
        }
        false
    }
}

fn first_segment_exec(s: &Vec<char>) -> (r: Vec<char>)
    ensures
        r@ == first_segment(s@),
{
    let mut i: usize = 0;
    while i < s.len() && !sep_at(s, i)
        invariant
            i <= s@.len(),
            sep_from(s@, 0) == sep_from(s@, i as int),
        decreases s@.len() - i,
    {
        i = i + 1;
    }
    slice_chars(s, 0, i)
}

fn last_segment_exec(s: &Vec<char>) -> (r: Vec<char>)
    ensures
        r@ == last_segment(s@),
{
    let mut i: usize = s.len();
    while i > 0 && !sep_at(s, i - 1)
        invariant
            i <= s@.len(),
            last_sep_before(s@, s@.len() as int) == last_sep_before(s@, i as int),
        decreases i,
    {
        i = i - 1;
    }
    if i == 0 {
        slice_chars(s, 0, s.len())
    } else {
        proof {
            reveal_strlit("::");
        }
        slice_chars(s, i + 1, s.len())
    }
}

fn chars_eq_str(a: &Vec<char>, b: &str) -> (r: bool)
    ensures
        r == (a@ == b@),
{
    let bc = chars_of(b);
    if a.len() != bc.len() {
        return false;
    }
    let r = matches_at(a.as_slice(), bc.as_slice(), 0);
    proof {
        if r {
            assert(a@.subrange(0, bc@.len() as int) =~= a@);
        }
    }
    r
}

fn use_target_exec(text: &str) -> (r: Vec<char>)
    ensures
        r@ == use_target(text@),
{
    let p = use_path_exec(text);
    let cleaned = trim_ws_exec(&p);
    let f0 = first_segment_exec(&cleaned);
    let first = trim_ws_exec(&f0);
    if chars_eq_str(&first, "self") || chars_eq_str(&first, "super") || chars_eq_str(&first, "crate") || chars_eq_str(
        &first,
        "*",
    ) || first.len() == 0 {
        return Vec::new();
    }
    let l0 = last_segment_exec(&cleaned);
    let last = trim_ws_exec(&l0);
    if chars_eq_str(&last, "*") {
        return Vec::new();
    }
    trim_braces_exec(&last)
}

fn string_of(v: &Vec<char>) -> (r: String)
    ensures
        r@ == v@,
{
    crate::text::string_from_chars(v.as_slice())
}

// ── Items ───────────────────────────────────────────────────────────────────

/// The symbol kind of a top-level Rust item kind.
pub open spec fn rust_symbol_kind(k: Seq<char>) -> Option<SymbolKind> {
    if k == "struct_item"@ {
        Some(SymbolKind::Struct)
    } else if k == "impl_item"@ {
        Some(SymbolKind::Impl)
    } else if k == "function_item"@ {
        Some(SymbolKind::Function)
    } else if k == "enum_item"@ {
        Some(SymbolKind::Enum)
    } else if k == "type_alias_item"@ {
        Some(SymbolKind::TypeAlias)
    } else {
        None
    }
}

/// Each top-level Rust item kind gets its own symbol kind: structs are
/// structs, impl blocks impls, functions functions, enums enums and type
/// aliases type aliases; no other node kind is a symbol.
pub proof fn lemma_rust_symbol_kinds(k: Seq<char>)
    ensures
        rust_symbol_kind(k) == Some(SymbolKind::Struct) <==> k == "struct_item"@,
        rust_symbol_kind(k) == Some(SymbolKind::Impl) <==> k == "impl_item"@,
        rust_symbol_kind(k) == Some(SymbolKind::Function) <==> k == "function_item"@,
        rust_symbol_kind(k) == Some(SymbolKind::Enum) <==> k == "enum_item"@,
        rust_symbol_kind(k) == Some(SymbolKind::TypeAlias) <==> k == "type_alias_item"@,
        rust_symbol_kind(k) is None <==> (k != "struct_item"@ && k != "impl_item"@ && k != "function_item"@
            && k != "enum_item"@ && k != "type_alias_item"@),
{
    reveal_strlit("struct_item");
    reveal_strlit("impl_item");
    reveal_strlit("function_item");
    reveal_strlit("enum_item");
    reveal_strlit("type_alias_item");
    assert("struct_item"@[0] == 's' && "impl_item"@[0] == 'i' && "function_item"@[0] == 'f' && "enum_item"@[0] == 'e'
        && "type_alias_item"@[0] == 't');
}

/// Each Rust item kind has its own outline kind: structs, enums, functions,
/// impl blocks and modules appear as such, type items and type aliases as
/// types; no other node kind is outlined.
pub proof fn lemma_rust_outline_kinds(k: Seq<char>)
    ensures
        rust_outline_kind(k) == Some(OutlineItemKind::Struct) <==> k == "struct_item"@,
        rust_outline_kind(k) == Some(OutlineItemKind::Enum) <==> k == "enum_item"@,
        rust_outline_kind(k) == Some(OutlineItemKind::Function) <==> k == "function_item"@,
        rust_outline_kind(k) == Some(OutlineItemKind::Impl) <==> k == "impl_item"@,
        rust_outline_kind(k) == Some(OutlineItemKind::Module) <==> k == "mod_item"@,
        rust_outline_kind(k) == Some(OutlineItemKind::Type) <==> (k == "type_item"@ || k == "type_alias_item"@),
        rust_outline_kind(k) is None <==> (k != "struct_item"@ && k != "enum_item"@ && k != "function_item"@
            && k != "impl_item"@ && k != "mod_item"@ && k != "type_item"@ && k != "type_alias_item"@),
{
    reveal_strlit("struct_item");
    reveal_strlit("impl_item");
    reveal_strlit("function_item");
    reveal_strlit("enum_item");
    reveal_strlit("mod_item");
    reveal_strlit("type_item");
    reveal_strlit("type_alias_item");
    assert("struct_item"@[0] == 's' && "impl_item"@[0] == 'i' && "function_item"@[0] == 'f' && "enum_item"@[0] == 'e'
        && "mod_item"@[0] == 'm' && "type_item"@[0] == 't' && "type_alias_item"@[0] == 't');
    assert("type_item"@.len() != "type_alias_item"@.len());
}

/// Distinct Rust item kinds never share a symbol kind.
pub proof fn lemma_rust_symbol_kind_injective(k1: Seq<char>, k2: Seq<char>)
    ensures
        rust_symbol_kind(k1) is Some && rust_symbol_kind(k1) == rust_symbol_kind(k2) ==> k1 == k2,
{
    lemma_rust_symbol_kinds(k1);
    lemma_rust_symbol_kinds(k2);
}

fn rust_symbol_kind_exec(k: &str) -> (r: Option<SymbolKind>)
    ensures
        r == rust_symbol_kind(k@),
{
    if str_eq(k, "struct_item") {
        Some(SymbolKind::Struct)
    } else if str_eq(k, "impl_item") {
        Some(SymbolKind::Impl)
    } else if str_eq(k, "function_item") {
        Some(SymbolKind::Function)
    } else if str_eq(k, "enum_item") {
        Some(SymbolKind::Enum)
    } else if str_eq(k, "type_alias_item") {
        Some(SymbolKind::TypeAlias)
    } else {
        None
    }
}

/// The name field's text of a node.
pub open spec fn item_name(n: SyntaxNode) -> Option<Seq<char>> {
    match field_child(n.children@, "name"@) {
        Some(c) => Some(c.text@),
        None => None,
    }
}

/// The name of a top-level item: its name field, or, for an impl block
/// (which has none), the type it implements.
pub open spec fn rust_item_name(n: SyntaxNode) -> Option<Seq<char>> {
    match field_child(n.children@, "name"@) {
        Some(c) => Some(c.text@),
        None => if n.kind@ == "impl_item"@ {
            match field_child(n.children@, "type"@) {
                Some(c) => Some(c.text@),
                None => None,
            }
        } else {
            None
        },
    }
}

/// Index of the child that names a top-level item (see
/// [`rust_item_name`]).
fn rust_item_name_index(n: &SyntaxNode) -> (r: Option<usize>)
    ensures
        r matches Some(j) ==> j < n.children@.len() && rust_item_name(*n) == Some(n.children@[j as int].text@),
        r is None ==> rust_item_name(*n) is None,
{
    match find_field_child(n, "name") {
        Some(j) => Some(j),
        None => if str_eq(n.kind.as_str(), "impl_item") {
            find_field_child(n, "type")
        } else {
            None
        },
    }
}

/// The method entry of an item inside an impl block.
pub open spec fn method_entry(item: SyntaxNode) -> Seq<OutlineEntry> {
    if item.kind@ == "function_item"@ {
        match item_name(item) {
            Some(name) => seq![(OutlineItemKind::Method, item, name)],
            None => Seq::empty(),
        }
    } else {
        Seq::empty()
    }
}

/// The method entries of one child of an impl block: the functions of its
/// body, a declaration list.
pub open spec fn impl_child_methods(c: SyntaxNode) -> Seq<OutlineEntry> {
    if c.kind@ == "declaration_list"@ {
        flat_map(c.children@, |i: SyntaxNode| method_entry(i))
    } else {
        Seq::empty()
    }
}

/// The methods of an impl block.
pub open spec fn impl_methods(n: SyntaxNode) -> Seq<OutlineEntry> {
    flat_map(n.children@, |c: SyntaxNode| impl_child_methods(c))
}

/// The children an item's outline entry gets: the methods of an impl
/// block, nothing for other items.
pub open spec fn rust_members(n: SyntaxNode) -> Seq<OutlineEntry> {
    if n.kind@ == "impl_item"@ {
        impl_methods(n)
    } else {
        Seq::empty()
    }
}

proof fn lemma_leaves_push(os: Seq<OutlineItem>, file_id: Seq<char>, es: Seq<OutlineEntry>, o: OutlineItem, e: OutlineEntry)
    requires
        leaves_ok(os, file_id, es),
        outline_leaf(o, file_id, e.0, e.1, e.2),
        o.children@.len() == 0,
    ensures
        leaves_ok(os.push(o), file_id, es.push(e)),
{
    assert forall|i: int| 0 <= i < os.push(o).len() implies outline_leaf(
        #[trigger] os.push(o)[i],
        file_id,
        es.push(e)[i].0,
        es.push(e)[i].1,
        es.push(e)[i].2,
    ) && os.push(o)[i].children@.len() == 0 by {
        if i < os.len() {
            assert(os.push(o)[i] == os[i]);
        }
    }
}

fn methods_into(c: &SyntaxNode, file_id: &str, out: &mut Vec<OutlineItem>, Ghost(done): Ghost<Seq<OutlineEntry>>)
    requires
        leaves_ok(old(out)@, file_id@, done),
    ensures
        leaves_ok(final(out)@, file_id@, done + flat_map(c.children@, |i: SyntaxNode| method_entry(i))),
{
    let ghost f = |i: SyntaxNode| method_entry(i);
    proof {
        lemma_flat_map_all(c.children@, f);
        assert(done + Seq::<OutlineEntry>::empty() =~= done);
    }
    let mut k: usize = 0;
    while k < c.children.len()
        invariant
            k <= c.children@.len(),
            f == (|i: SyntaxNode| method_entry(i)),
            leaves_ok(out@, file_id@, done + flat_map(c.children@.take(k as int), f)),
        decreases c.children@.len() - k,
    {
        proof {
            lemma_flat_map_step(c.children@, f, k as int);
        }
        let ghost prev = done + flat_map(c.children@.take(k as int), f);
        let item = &c.children[k];
        if str_eq(item.kind.as_str(), "function_item") {
            match find_field_child(item, "name") {
                Some(j) => {
                    let o = outline_item(file_id, OutlineItemKind::Method, item, item.children[j].text.as_str(), Vec::new());
                    proof {
                        lemma_leaves_push(out@, file_id@, prev, o, (OutlineItemKind::Method, *item, item.children@[j as int].text@));
                        assert(done + flat_map(c.children@.take(k + 1), f) =~= prev.push(
                            (OutlineItemKind::Method, *item, item.children@[j as int].text@),
                        ));
                    }
                    out.push(o);
                },
                None => {
                    assert(done + flat_map(c.children@.take(k + 1), f) =~= prev);
                },
            }
        } else {
            assert(done + flat_map(c.children@.take(k + 1), f) =~= prev);
        }
        k = k + 1;
    }
}

/// The methods of an impl block, as childless outline items.
fn extract_impl_methods(n: &SyntaxNode, file_id: &str) -> (r: Vec<OutlineItem>)
    ensures
        leaves_ok(r@, file_id@, impl_methods(*n)),
{
    let ghost f = |c: SyntaxNode| impl_child_methods(c);
    let mut out: Vec<OutlineItem> = Vec::new();
    proof {
        lemma_flat_map_all(n.children@, f);
    }
    let mut k: usize = 0;
    while k < n.children.len()
        invariant
            k <= n.children@.len(),
            f == (|c: SyntaxNode| impl_child_methods(c)),
            leaves_ok(out@, file_id@, flat_map(n.children@.take(k as int), f)),
        decreases n.children@.len() - k,
    {
        proof {
            lemma_flat_map_step(n.children@, f, k as int);
        }
        let c = &n.children[k];
        if str_eq(c.kind.as_str(), "declaration_list") {
            methods_into(c, file_id, &mut out, Ghost(flat_map(n.children@.take(k as int), f)));
        } else {
            assert(flat_map(n.children@.take(k + 1), f) =~= flat_map(n.children@.take(k as int), f));
        }
        k = k + 1;
    }
    out
}

/// The reference of a `use` declaration, before its file is set.
pub open spec fn rust_refs(n: SyntaxNode) -> Seq<RefView> {
    if n.kind@ == "use_declaration"@ {
        seq![(Seq::<char>::empty(), ReferenceKind::Import, use_target(n.text@), range_of(n))]
    } else {
        Seq::empty()
    }
}

fn rust_refs_exec(n: &SyntaxNode) -> (r: Vec<Reference>)
    ensures
        reference_views(r@) == rust_refs(*n),
{
    let mut out: Vec<Reference> = Vec::new();
    if str_eq(n.kind.as_str(), "use_declaration") {
        let t = use_target_exec(n.text.as_str());
        out.push(Reference { file_id: String::new(), kind: ReferenceKind::Import, target_name: string_of(&t), range: node_range(n) });
        assert(reference_views(out@) =~= seq![reference_view(out@[0])]);
    } else {
        assert(reference_views(out@) =~= Seq::<RefView>::empty());
    }
    out
}

/// The import a `use` declaration records: the module of its path, or
/// none when that is empty.
pub open spec fn rust_import_of(n: SyntaxNode, file_id: Seq<char>) -> ImportView {
    let m = use_module(n.text@);
    (file_id, None, if m.len() == 0 { None } else { Some(m) }, Seq::empty(), false, false)
}

/// The symbols of a top-level item.
pub open spec fn rust_node_symbols(n: SyntaxNode, file_id: Seq<char>) -> Seq<SymbolView> {
    match (rust_symbol_kind(n.kind@), rust_item_name(n)) {
        (Some(sk), Some(name)) => seq![symbol_of(name, sk, file_id, n)],
        _ => Seq::empty(),
    }
}

/// A named top-level item gives one symbol, with that name and the kind of
/// its item: a struct, impl block, function, enum or type alias is reported
/// as such.
pub proof fn lemma_rust_item_symbol(n: SyntaxNode, file_id: Seq<char>)
    requires
        rust_item_name(n) is Some,
    ensures
        n.kind@ == "struct_item"@ ==> rust_node_symbols(n, file_id) == seq![symbol_of(rust_item_name(n)->0, SymbolKind::Struct, file_id, n)],
        n.kind@ == "impl_item"@ ==> rust_node_symbols(n, file_id) == seq![symbol_of(rust_item_name(n)->0, SymbolKind::Impl, file_id, n)],
        n.kind@ == "function_item"@ ==> rust_node_symbols(n, file_id) == seq![symbol_of(rust_item_name(n)->0, SymbolKind::Function, file_id, n)],
        n.kind@ == "enum_item"@ ==> rust_node_symbols(n, file_id) == seq![symbol_of(rust_item_name(n)->0, SymbolKind::Enum, file_id, n)],
        n.kind@ == "type_alias_item"@ ==> rust_node_symbols(n, file_id) == seq![symbol_of(rust_item_name(n)->0, SymbolKind::TypeAlias, file_id, n)],
{
    lemma_rust_symbol_kinds(n.kind@);
}

/// The imports of a top-level item.
pub open spec fn rust_node_imports(n: SyntaxNode, file_id: Seq<char>) -> Seq<ImportView> {
    if n.kind@ == "use_declaration"@ {
        seq![rust_import_of(n, file_id)]
    } else {
        Seq::empty()
    }
}

/// The outline entry of a top-level item.
pub open spec fn rust_node_outline(n: SyntaxNode) -> Seq<OutlineEntry> {
    match (rust_outline_kind(n.kind@), rust_item_name(n)) {
        (Some(ok), Some(name)) => seq![(ok, n, name)],
        _ => Seq::empty(),
    }
}

/// The file's lexical kind: a function as soon as one function item is
/// declared, a constant otherwise.
pub open spec fn rust_lexical_fold(ns: Seq<SyntaxNode>) -> LexicalValueKind
    decreases ns.len(),
{
    if ns.len() == 0 {
        LexicalValueKind::Const
    } else if ns.last().kind@ == "function_item"@ {
        LexicalValueKind::Function
    } else {
        rust_lexical_fold(ns.drop_last())
    }
}

/// `os` are the outline items of `entries`, impl blocks with their methods.
pub open spec fn rust_outline_ok(os: Seq<OutlineItem>, file_id: Seq<char>, entries: Seq<OutlineEntry>) -> bool {
    &&& os.len() == entries.len()
    &&& forall|i: int|
        0 <= i < os.len() ==> outline_leaf(#[trigger] os[i], file_id, entries[i].0, entries[i].1, entries[i].2)
            && leaves_ok(os[i].children@, file_id, rust_members(entries[i].1))
}

/// What extraction from a Rust tree produces.
pub open spec fn rust_extraction(r: ParseResult, root: SyntaxNode, file_id: Seq<char>) -> bool {
    &&& symbol_views(r.symbols@) == flat_map(root.children@, |n: SyntaxNode| rust_node_symbols(n, file_id))
    &&& import_views(r.imports@) == flat_map(root.children@, |n: SyntaxNode| rust_node_imports(n, file_id))
    &&& rust_outline_ok(r.outline@, file_id, flat_map(root.children@, |n: SyntaxNode| rust_node_outline(n)))
    &&& reference_views(r.references@) == with_file(file_id, flat_map(root.children@, |n: SyntaxNode| rust_refs(n)))
    &&& r.lexical_kind == rust_lexical_fold(root.children@)
}

fn rust_import_exec(n: &SyntaxNode, file_id: &str) -> (r: ImportInfo)
    ensures
        import_view(r) == rust_import_of(*n, file_id@),
{
    let p = use_path_exec(n.text.as_str());
    let m = first_segment_exec(&p);
    let target_module = if m.len() == 0 { None } else { Some(string_of(&m)) };
    let imports: Vec<String> = Vec::new();
    assert(imports@.map_values(|x: String| x@) =~= Seq::<Seq<char>>::empty());
    ImportInfo {
        id: crate::ports::new_uuid_text(),
        source_file_id: file_id.to_owned(),
        target_file_id: None,
        target_module,
        imports,
        is_default: false,
        is_type: false,
    }
}

/// Extracts symbols, imports, outline, references and lexical kind from the
/// top-level items of a Rust syntax tree.
pub fn extract_rust(root: &SyntaxNode, file_id: &str) -> (r: ParseResult)
    ensures
        rust_extraction(r, *root, file_id@),
{
    let ghost fs = |n: SyntaxNode| rust_node_symbols(n, file_id@);
    let ghost fi = |n: SyntaxNode| rust_node_imports(n, file_id@);
    let ghost fo = |n: SyntaxNode| rust_node_outline(n);
    let ghost fr = |n: SyntaxNode| rust_refs(n);
    let ghost ns = root.children@;
    let mut symbols: Vec<SymbolInfo> = Vec::new();
    let mut imports: Vec<ImportInfo> = Vec::new();
    let mut outline: Vec<OutlineItem> = Vec::new();
    let mut references: Vec<Reference> = Vec::new();
    let mut lexical = LexicalValueKind::Const;
    proof {
        lemma_flat_map_all(ns, fs);
        lemma_flat_map_all(ns, fi);
        lemma_flat_map_all(ns, fo);
        lemma_flat_map_all(ns, fr);
        assert(symbol_views(symbols@) =~= Seq::<SymbolView>::empty());
        assert(import_views(imports@) =~= Seq::<ImportView>::empty());
        assert(reference_views(references@) =~= with_file(file_id@, Seq::<RefView>::empty()));
        assert(ns.take(0) =~= Seq::<SyntaxNode>::empty());
    }
    let mut k: usize = 0;
    while k < root.children.len()
        invariant
            k <= ns.len(),
            ns == root.children@,
            fs == (|n: SyntaxNode| rust_node_symbols(n, file_id@)),
            fi == (|n: SyntaxNode| rust_node_imports(n, file_id@)),
            fo == (|n: SyntaxNode| rust_node_outline(n)),
            fr == (|n: SyntaxNode| rust_refs(n)),
            symbol_views(symbols@) == flat_map(ns.take(k as int), fs),
            import_views(imports@) == flat_map(ns.take(k as int), fi),
            rust_outline_ok(outline@, file_id@, flat_map(ns.take(k as int), fo)),
            reference_views(references@) == with_file(file_id@, flat_map(ns.take(k as int), fr)),
            lexical == rust_lexical_fold(ns.take(k as int)),
        decreases ns.len() - k,
    {
        let n = &root.children[k];
        proof {
            lemma_flat_map_step(ns, fs, k as int);
            lemma_flat_map_step(ns, fi, k as int);
            lemma_flat_map_step(ns, fo, k as int);
            lemma_flat_map_step(ns, fr, k as int);
            assert(ns.take(k + 1).drop_last() =~= ns.take(k as int));
            assert(ns.take(k + 1).last() == *n);
        }
        let name_idx = rust_item_name_index(n);
        // Symbol.
        match (rust_symbol_kind_exec(n.kind.as_str()), name_idx) {
            (Some(sk), Some(j)) => {
                let ghost s0 = symbols@;
                symbols.push(symbol_at(n.children[j].text.as_str(), sk, file_id, n));
                assert(symbol_views(symbols@) =~= symbol_views(s0).push(symbol_view(symbols@.last())));
            },
            _ => {
                assert(flat_map(ns.take(k as int), fs) + rust_node_symbols(*n, file_id@) =~= flat_map(ns.take(k as int), fs));
            },
        }
        // Outline item.
        match (rust_node_kind_to_outline_kind(n.kind.as_str()), name_idx) {
            (Some(ok), Some(j)) => {
                let children = if str_eq(n.kind.as_str(), "impl_item") {
                    extract_impl_methods(n, file_id)
                } else {
                    let v: Vec<OutlineItem> = Vec::new();
                    v
                };
                let ghost o0 = outline@;
                let ghost prev = flat_map(ns.take(k as int), fo);
                outline.push(outline_item(file_id, ok, n, n.children[j].text.as_str(), children));
                proof {
                    assert(flat_map(ns.take(k + 1), fo) =~= prev.push((ok, *n, n.children@[j as int].text@)));
                    assert forall|i: int| 0 <= i < outline@.len() implies outline_leaf(
                        #[trigger] outline@[i],
                        file_id@,
                        flat_map(ns.take(k + 1), fo)[i].0,
                        flat_map(ns.take(k + 1), fo)[i].1,
                        flat_map(ns.take(k + 1), fo)[i].2,
                    ) && leaves_ok(outline@[i].children@, file_id@, rust_members(flat_map(ns.take(k + 1), fo)[i].1)) by {
                        if i < o0.len() {
                            assert(outline@[i] == o0[i]);
                        }
                    }
                }
            },
            _ => {
                assert(flat_map(ns.take(k + 1), fo) =~= flat_map(ns.take(k as int), fo));
            },
        }
        // Import and reference of a use declaration.
        if str_eq(n.kind.as_str(), "use_declaration") {
            let ghost iv0 = import_views(imports@);
            imports.push(rust_import_exec(n, file_id));
            assert(import_views(imports@) =~= iv0.push(import_view(imports@.last())));
        } else {
            assert(flat_map(ns.take(k as int), fi) + rust_node_imports(*n, file_id@) =~= flat_map(ns.take(k as int), fi));
        }
        let mut refs = rust_refs_exec(n);
        set_reference_file(&mut refs, file_id);
        let ghost rv0 = reference_views(references@);
        let ghost rv1 = reference_views(refs@);
        references.append(&mut refs);
        proof {
            assert(reference_views(references@) =~= rv0 + rv1);
            assert(with_file(file_id@, flat_map(ns.take(k as int), fr) + rust_refs(*n)) =~= with_file(
                file_id@,
                flat_map(ns.take(k as int), fr),
            ) + with_file(file_id@, rust_refs(*n)));
        }
        // Lexical kind.
        if str_eq(n.kind.as_str(), "function_item") {
            lexical = LexicalValueKind::Function;
        }
        k = k + 1;
    }
    ParseResult { symbols, imports, outline, lexical_kind: lexical, references }
}

/// Parser for Rust.
#[derive(Debug, Clone, Copy, Default)]
pub struct RustParser;

impl RustParser {
    pub fn new() -> Self {
        RustParser
    }
}

impl LanguageParser for RustParser {
    fn language_id(&self) -> (r: &'static str)
        ensures
            r@ == "rust"@,
    {
        "rust"
    }

    open spec fn handled(&self) -> Seq<Seq<char>> {
        seq!["rs"@]
    }

    fn extensions(&self) -> (r: &'static [&'static str]) {
        let r: &'static [&'static str] = &["rs"];
        proof {
            assert(r@.map_values(|e: &str| e@) =~= seq!["rs"@]);
        }
        r
    }

    fn lexical_kind_for(&self, node: &SyntaxNode, source: &str) -> (r: LexicalValueKind)
        ensures
            r == (if node.kind@ == "function_item"@ { LexicalValueKind::Function } else { LexicalValueKind::Const }),
    {
        if str_eq(node.kind.as_str(), "function_item") {
            LexicalValueKind::Function
        } else {
            LexicalValueKind::Const
        }
    }

    fn extract_references(&self, node: &SyntaxNode, source: &str) -> (r: Vec<Reference>)
        ensures
            reference_views(r@) == rust_refs(*node),
    {
        rust_refs_exec(node)
    }

    /// Parses `source` as Rust and extracts from the tree; an empty result
    /// when the source cannot be parsed.
    open spec fn parses(&self, source: Seq<char>, path: Seq<char>, file_id: Seq<char>, r: ParseResult) -> bool {
        match crate::syntax::syntax_tree(source, crate::syntax::Grammar::Rust) {
            Some(root) => rust_extraction(r, root, file_id),
            None => r.is_empty_result(),
        }
    }

    fn parse_all(&self, source: &str, path: &str, file_id: &str) -> (r: ParseResult)
        ensures
            match crate::syntax::syntax_tree(source@, crate::syntax::Grammar::Rust) {
                Some(root) => rust_extraction(r, root, file_id@),
                None => r.is_empty_result(),
            },
    {
        match crate::syntax::parse_syntax(source, crate::syntax::Grammar::Rust) {
            Some(root) => extract_rust(&root, file_id),
            None => ParseResult::default(),
        }
    }
}

} // verus!
