//! Dispatch of source files to language parsers: the registry of
//! language parsers keyed by extension, and the symbol/import scanner used
//! by the first scan pass.

use vstd::prelude::*;
use crate::models::{ImportInfo, ParseResult, SymbolInfo};
use crate::parser::{symbol_at, symbol_of, symbol_view, symbol_views, LanguageParser, PythonParser};
use crate::rust_parser::{rust_node_imports, rust_node_symbols, extract_rust, item_name, RustParser};
use crate::syntax::{find_field_child, flat_map, lemma_flat_map_all, lemma_flat_map_step, parse_syntax, syntax_tree, Grammar, SyntaxNode};
use crate::text::str_eq;
use crate::ts_parser::{
    import_view, import_views, node_imports, ts_symbol_kind, ImportView, SymbolView, TypeScriptParser,
};

verus! {

broadcast use vstd::seq_lib::group_seq_properties;

/// Language parsers, tried in registration order, each with its language
/// identifier.
pub struct ParserRegistry {
    parsers: Vec<(Box<dyn LanguageParser>, &'static str)>,
}

impl ParserRegistry {
    /// A registry with the TypeScript, Rust and Python parsers, in that
    /// order.
    pub fn new() -> (r: Self)
        ensures
            r.handled_by() == seq![seq!["ts"@, "tsx"@, "js"@, "jsx"@], seq!["rs"@], seq!["py"@]],
            forall|source: Seq<char>, path: Seq<char>, file_id: Seq<char>, res: ParseResult|
                #[trigger] r.parses_with(0, source, path, file_id, res) == TypeScriptParser.parses(source, path, file_id, res),
            forall|source: Seq<char>, path: Seq<char>, file_id: Seq<char>, res: ParseResult|
                #[trigger] r.parses_with(1, source, path, file_id, res) == RustParser.parses(source, path, file_id, res),
            forall|source: Seq<char>, path: Seq<char>, file_id: Seq<char>, res: ParseResult|
                #[trigger] r.parses_with(2, source, path, file_id, res) == PythonParser.parses(source, path, file_id, res),
    {
        let mut registry = ParserRegistry { parsers: Vec::new() };
        registry.register(Box::new(TypeScriptParser::new()));
        registry.register(Box::new(RustParser::new()));
        registry.register(Box::new(PythonParser::new()));
        assert(registry.handled_by() =~= seq![seq!["ts"@, "tsx"@, "js"@, "jsx"@], seq!["rs"@], seq!["py"@]]);
        registry
    }

    /// Adds a parser, boxed as the registry holds it, after the registered
    /// ones.
    pub fn register(&mut self, parser: Box<dyn LanguageParser>)
        ensures
            final(self).handled_by() == old(self).handled_by().push(parser.handled()),
            forall|k: int, source: Seq<char>, path: Seq<char>, file_id: Seq<char>, r: ParseResult|
                0 <= k < old(self).handled_by().len() ==> #[trigger] final(self).parses_with(k, source, path, file_id, r)
                    == old(self).parses_with(k, source, path, file_id, r),
            forall|source: Seq<char>, path: Seq<char>, file_id: Seq<char>, r: ParseResult|
                #[trigger] final(self).parses_with(old(self).handled_by().len() as int, source, path, file_id, r)
                    == parser.parses(source, path, file_id, r),
    {
        let language = parser.language_id();
        let mut current: Vec<(Box<dyn LanguageParser>, &'static str)> = Vec::new();
        std::mem::swap(&mut current, &mut self.parsers);
        assert(current@ == old(self).parsers@);
        let entry = (parser, language);
        let updated = with_entry(current, entry);
        assert(updated@.len() == old(self).parsers@.len() + 1);
        self.parsers = updated;
        assert(self.parsers@.len() == old(self).parsers@.len() + 1);
        assert(self.handled_by().len() == old(self).handled_by().len() + 1);
        assert(self.handled_by() =~= old(self).handled_by().push(parser.handled()));
    }

    /// The extensions handled by each registered parser, in registration
    /// order.
    pub closed spec fn handled_by(&self) -> Seq<Seq<Seq<char>>> {
        self.parsers@.map_values(|p: (Box<dyn LanguageParser>, &'static str)| p.0.handled())
    }

    /// The registered parser at position `k` may give `r` for `source` at
    /// `path`.
    pub closed spec fn parses_with(&self, k: int, source: Seq<char>, path: Seq<char>, file_id: Seq<char>, r: ParseResult) -> bool {
        self.parsers@[k].0.parses(source, path, file_id, r)
    }

    /// The parser at position `k` is the first registered one that handles
    /// `extension`.
    pub open spec fn first_handler(&self, k: int, extension: Seq<char>) -> bool {
        &&& 0 <= k < self.handled_by().len()
        &&& self.handled_by()[k].contains(extension)
        &&& forall|q: int| 0 <= q < k ==> !(#[trigger] self.handled_by()[q]).contains(extension)
    }

    /// Some registered parser handles `extension`.
    pub open spec fn dispatches(&self, extension: Seq<char>) -> bool {
        exists|k: int| 0 <= k < self.handled_by().len() && #[trigger] self.handled_by()[k].contains(extension)
    }

    /// Position of the first registered parser that supports `extension`.
    fn position_for(&self, extension: &str) -> (r: Option<usize>)
        ensures
            r matches Some(i) ==> i < self.parsers@.len() && self.first_handler(i as int, extension@),
            r is None <==> !self.dispatches(extension@),
    {
        let mut k: usize = 0;
        while k < self.parsers.len()
            invariant
                k <= self.parsers@.len(),
                forall|q: int| 0 <= q < k ==> !(#[trigger] self.handled_by()[q]).contains(extension@),
            decreases self.parsers@.len() - k,
        {
            if self.parsers[k].0.supports(extension) {
                assert(self.handled_by()[k as int].contains(extension@));
                return Some(k);
            }
            assert(!self.handled_by()[k as int].contains(extension@));
            k = k + 1;
        }
        None
    }

    /// `p` handles and parses as the registered parser at position `k`.
    pub open spec fn acts_as(&self, k: int, p: &Box<dyn LanguageParser>) -> bool {
        &&& p.handled() == self.handled_by()[k]
        &&& forall|source: Seq<char>, path: Seq<char>, file_id: Seq<char>, res: ParseResult|
            #[trigger] p.parses(source, path, file_id, res) == self.parses_with(k, source, path, file_id, res)
    }

    /// The first registered parser that supports `extension`, if any, boxed
    /// as the registry holds it.
    pub fn parser_for_extension(&self, extension: &str) -> (r: Option<&Box<dyn LanguageParser>>)
        ensures
            r is None <==> !self.dispatches(extension@),
            r matches Some(p) ==> exists|k: int| #[trigger] self.first_handler(k, extension@) && self.acts_as(k, p),
    {
        match self.position_for(extension) {
            Some(k) => {
                let p: &Box<dyn LanguageParser> = &self.parsers[k].0;
                assert(self.acts_as(k as int, p));
                Some(p)
            },
            None => None,
        }
    }

    /// Parses a file with the parser of its extension; an empty result when
    /// no registered parser supports it.
    pub fn parse_file(&self, path: &str, source: &str, extension: &str, file_id: &str) -> (r: ParseResult)
        ensures
            !self.dispatches(extension@) ==> r.is_empty_result(),
            forall|k: int| #[trigger] self.first_handler(k, extension@) ==> self.parses_with(k, source@, path@, file_id@, r),
    {
        match self.position_for(extension) {
            Some(k) => self.parsers[k].0.parse_all(source, path, file_id),
            None => ParseResult::default(),
        }
    }
}

/// Registering a parser keeps the first handler of every extension that a
/// registered parser handled, and makes the new parser the first handler of
/// the extensions it alone handles.
pub proof fn lemma_register_dispatch(
    before: ParserRegistry,
    after: ParserRegistry,
    added: Seq<Seq<char>>,
    extension: Seq<char>,
)
    requires
        after.handled_by() == before.handled_by().push(added),
    ensures
        forall|k: int| before.first_handler(k, extension) ==> after.first_handler(k, extension),
        !before.dispatches(extension) && added.contains(extension) ==> after.first_handler(
            before.handled_by().len() as int,
            extension,
        ),
{
    assert forall|k: int| before.first_handler(k, extension) implies after.first_handler(k, extension) by {
        assert(after.handled_by()[k] == before.handled_by()[k]);
        assert forall|q: int| 0 <= q < k implies !(#[trigger] after.handled_by()[q]).contains(extension) by {
            assert(after.handled_by()[q] == before.handled_by()[q]);
        }
    }
    if !before.dispatches(extension) && added.contains(extension) {
        let m = before.handled_by().len() as int;
        assert(after.handled_by()[m] == added);
        assert forall|q: int| 0 <= q < m implies !(#[trigger] after.handled_by()[q]).contains(extension) by {
            assert(after.handled_by()[q] == before.handled_by()[q]);
        }
    }
}

impl Default for ParserRegistry {
    fn default() -> (r: Self)
        ensures
            r.handled_by() == seq![seq!["ts"@, "tsx"@, "js"@, "jsx"@], seq!["rs"@], seq!["py"@]],
    {
        ParserRegistry::new()
    }
}

fn with_entry(
    parsers: Vec<(Box<dyn LanguageParser>, &'static str)>,
    entry: (Box<dyn LanguageParser>, &'static str),
) -> (r: Vec<(Box<dyn LanguageParser>, &'static str)>)
    ensures
        r@.len() == parsers@.len() + 1,
        forall|k: int| 0 <= k < parsers@.len() ==> r@[k] == parsers@[k],
        r@[parsers@.len() as int] == entry,
{
    let mut out = parsers;
    out.push(entry);
    out
}

/// The grammar the symbol scanner uses for an extension.
pub open spec fn scan_grammar(extension: Seq<char>) -> Option<Grammar> {
    if extension == "ts"@ || extension == "tsx"@ {
        Some(Grammar::TypeScript)
    } else if extension == "js"@ || extension == "jsx"@ {
        Some(Grammar::JavaScript)
    } else if extension == "rs"@ {
        Some(Grammar::Rust)
    } else {
        None
    }
}

/// The symbol the scanner records for a top-level TypeScript or JavaScript
/// node: a declaration with a name (exports are not looked into).
pub open spec fn scan_ts_symbols(n: SyntaxNode, file: Seq<char>) -> Seq<SymbolView> {
    match (ts_symbol_kind(n.kind@), item_name(n)) {
        (Some(sk), Some(name)) => seq![symbol_of(name, sk, file, n)],
        _ => Seq::empty(),
    }
}

/// What the scanner records for a tree parsed with `grammar`.
pub open spec fn scan_extraction(
    r: (Vec<SymbolInfo>, Vec<ImportInfo>),
    root: SyntaxNode,
    grammar: Grammar,
    file: Seq<char>,
) -> bool {
    if grammar == Grammar::Rust {
        &&& symbol_views(r.0@) == flat_map(root.children@, |n: SyntaxNode| rust_node_symbols(n, file))
        &&& import_views(r.1@) == flat_map(root.children@, |n: SyntaxNode| rust_node_imports(n, file))
    } else {
        &&& symbol_views(r.0@) == flat_map(root.children@, |n: SyntaxNode| scan_ts_symbols(n, file))
        &&& import_views(r.1@) == flat_map(root.children@, |n: SyntaxNode| node_imports(n, file))
    }
}

/// Tree-sitter based scanner of symbols and imports for JS, TS and Rust.
#[derive(Debug, Clone, Copy, Default)]
pub struct CodeParser;

fn scan_grammar_exec(extension: &str) -> (r: Option<Grammar>)
    ensures
        r == scan_grammar(extension@),
{
    if str_eq(extension, "ts") || str_eq(extension, "tsx") {
        Some(Grammar::TypeScript)
    } else if str_eq(extension, "js") || str_eq(extension, "jsx") {
        Some(Grammar::JavaScript)
    } else if str_eq(extension, "rs") {
        Some(Grammar::Rust)
    } else {
        None
    }
}

fn scan_ts_tree(root: &SyntaxNode, file: &str) -> (r: (Vec<SymbolInfo>, Vec<ImportInfo>))
    ensures
        symbol_views(r.0@) == flat_map(root.children@, |n: SyntaxNode| scan_ts_symbols(n, file@)),
        import_views(r.1@) == flat_map(root.children@, |n: SyntaxNode| node_imports(n, file@)),
{
    let ghost fs = |n: SyntaxNode| scan_ts_symbols(n, file@);
    let ghost fi = |n: SyntaxNode| node_imports(n, file@);
    let ghost ns = root.children@;
    let mut symbols: Vec<SymbolInfo> = Vec::new();
    let mut imports: Vec<ImportInfo> = Vec::new();
    proof {
        lemma_flat_map_all(ns, fs);
        lemma_flat_map_all(ns, fi);
        assert(symbol_views(symbols@) =~= Seq::<SymbolView>::empty());
        assert(import_views(imports@) =~= Seq::<ImportView>::empty());
    }
    let mut k: usize = 0;
    while k < root.children.len()
        invariant
            k <= ns.len(),
            ns == root.children@,
            fs == (|n: SyntaxNode| scan_ts_symbols(n, file@)),
            fi == (|n: SyntaxNode| node_imports(n, file@)),
            symbol_views(symbols@) == flat_map(ns.take(k as int), fs),
            import_views(imports@) == flat_map(ns.take(k as int), fi),
        decreases ns.len() - k,
    {
        let n = &root.children[k];
        proof {
            lemma_flat_map_step(ns, fs, k as int);
            lemma_flat_map_step(ns, fi, k as int);
        }
        match (crate::ts_parser::ts_symbol_kind_exec(n.kind.as_str()), find_field_child(n, "name")) {
            (Some(sk), Some(j)) => {
                let ghost s0 = symbols@;
                symbols.push(symbol_at(n.children[j].text.as_str(), sk, file, n));
                assert(symbol_views(symbols@) =~= symbol_views(s0).push(symbol_view(symbols@.last())));
            },
            _ => {
                assert(flat_map(ns.take(k as int), fs) + scan_ts_symbols(*n, file@) =~= flat_map(ns.take(k as int), fs));
            },
        }
        if str_eq(n.kind.as_str(), "import_statement") {
            let ghost iv0 = import_views(imports@);
            imports.push(crate::ts_parser::import_of(n, file));
            assert(import_views(imports@) =~= iv0.push(import_view(imports@.last())));
        } else {
            assert(flat_map(ns.take(k as int), fi) + node_imports(*n, file@) =~= flat_map(ns.take(k as int), fi));
        }
        k = k + 1;
    }
    (symbols, imports)
}

impl CodeParser {
    /// The symbols and imports of a file, by extension: TypeScript grammar
    /// for `ts`/`tsx`, JavaScript for `js`/`jsx`, Rust for `rs`; nothing for
    /// other extensions or unparseable sources. Ids of the records are
    /// fresh; the file is named by its path.
    pub fn parse_file(path: &str, content: &str, extension: &str) -> (r: (Vec<SymbolInfo>, Vec<ImportInfo>))
        ensures
            match scan_grammar(extension@) {
                Some(g) => match syntax_tree(content@, g) {
                    Some(root) => scan_extraction(r, root, g, path@),
                    None => r.0@.len() == 0 && r.1@.len() == 0,
                },
                None => r.0@.len() == 0 && r.1@.len() == 0,
            },
    {
        let grammar = match scan_grammar_exec(extension) {
            Some(g) => g,
            None => return (Vec::new(), Vec::new()),
        };
        let root = match parse_syntax(content, grammar) {
            Some(t) => t,
            None => return (Vec::new(), Vec::new()),
        };
        match grammar {
            Grammar::Rust => {
                let res = extract_rust(&root, path);
                (res.symbols, res.imports)
            },
            _ => scan_ts_tree(&root, path),
        }
    }
}

} // verus!
