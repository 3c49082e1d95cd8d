//! The dependency graph: resolution of import paths to project files or
//! external modules, and the construction of the graph from scanned files
//! and their imports.

use vstd::prelude::*;
use crate::json::{json_get, json_value, member_index, parse_json, JsonValue};
use crate::models::{FileInfo, GraphData, GraphEdge, GraphNode, ImportInfo, NodeType, SymbolInfo};
use crate::text::{
    append_str, before_char, has_prefix, has_substring, has_suffix, lowercase, prefix_before, replace_all, replace_str,
    str_contains, str_ends_with, str_starts_with, to_lowercase,
};

verus! {

// ── Path operations ─────────────────────────────────────────────────────────

/// The parent of a path, as std's `Path::parent` computes it (lossily
/// shown as text).
pub uninterp spec fn path_parent(p: Seq<char>) -> Option<Seq<char>>;

/// `a` joined with `b`, as std's `Path::join` computes it.
pub uninterp spec fn path_join(a: Seq<char>, b: Seq<char>) -> Seq<char>;

/// Whether a path is relative, as std's `Path::is_relative` decides it.
pub uninterp spec fn path_is_relative(p: Seq<char>) -> bool;

/// `p` without the leading components `root`, as std's
/// `Path::strip_prefix` computes it.
pub uninterp spec fn path_strip_prefix(p: Seq<char>, root: Seq<char>) -> Option<Seq<char>>;

/// std's `Path::parent`, shown with `to_string_lossy`; named `path_parent`.
#[verifier::external_body]
fn parent_of(p: &str) -> (r: Option<String>)
    ensures
        match r {
            Some(s) => path_parent(p@) == Some(s@),
            None => path_parent(p@) is None,
        },
{
    std::path::Path::new(p).parent().map(|d| d.to_string_lossy().into_owned())
}

/// std's `Path::join`, shown with `to_string_lossy`; named `path_join`.
#[verifier::external_body]
pub(crate) fn join_path(a: &str, b: &str) -> (r: String)
    ensures
        r@ == path_join(a@, b@),
{
    std::path::Path::new(a).join(b).to_string_lossy().into_owned()
}

/// std's `Path::is_relative`; named `path_is_relative`.
#[verifier::external_body]
fn is_relative_path(p: &str) -> (r: bool)
    ensures
        r == path_is_relative(p@),
{
    std::path::Path::new(p).is_relative()
}

/// std's `Path::strip_prefix`, shown with `to_string_lossy`; named
/// `path_strip_prefix`.
#[verifier::external_body]
fn strip_path_prefix(p: &str, root: &str) -> (r: Option<String>)
    ensures
        match r {
            Some(s) => path_strip_prefix(p@, root@) == Some(s@),
            None => path_strip_prefix(p@, root@) is None,
        },
{
    std::path::Path::new(p).strip_prefix(root).ok().map(|s| s.to_string_lossy().into_owned())
}

/// std's `Path::exists`: whether a file is on disk at the moment of the
/// call; nothing is stated of it.
#[verifier::external_body]
fn path_exists(p: &str) -> bool {
    std::path::Path::new(p).exists()
}

// ── Resolution ──────────────────────────────────────────────────────────────

/// Outcome of resolving an import path.
#[derive(Debug, Clone, PartialEq, Eq)]
pub enum Resolution {
    /// A project file, relative to the project root.
    Internal(String),
    /// An external module.
    External(String),
    /// A relative path that matches no file.
    Unresolved(String),
}

/// Resolves import paths to project files or external modules.
#[derive(Debug, Clone)]
pub struct PathResolver {
    root: String,
    aliases: Vec<(String, String)>,
    extensions: Vec<String>,
}

/// The suffixes tried, in order, after a relative import path.
pub open spec fn candidate_suffix(k: int) -> Seq<char> {
    if k == 0 { ""@ }
    else if k == 1 { ".ts"@ }
    else if k == 2 { ".tsx"@ }
    else if k == 3 { ".js"@ }
    else if k == 4 { ".jsx"@ }
    else if k == 5 { "/index.ts"@ }
    else if k == 6 { "/index.tsx"@ }
    else { "/index.js"@ }
}

fn candidate_suffix_str(k: usize) -> (r: &'static str)
    requires
        k < 8,
    ensures
        r@ == candidate_suffix(k as int),
{
    if k == 0 { "" }
    else if k == 1 { ".ts" }
    else if k == 2 { ".tsx" }
    else if k == 3 { ".js" }
    else if k == 4 { ".jsx" }
    else if k == 5 { "/index.ts" }
    else if k == 6 { "/index.tsx" }
    else { "/index.js" }
}

/// The directory of the importing file.
pub open spec fn from_dir(from_file: Seq<char>) -> Seq<char> {
    match path_parent(from_file) {
        Some(d) => d,
        None => Seq::empty(),
    }
}

/// The `k`-th candidate for a relative import, before it is anchored.
pub open spec fn candidate(import_path: Seq<char>, from_file: Seq<char>, k: int) -> Seq<char> {
    path_join(from_dir(from_file), import_path) + candidate_suffix(k)
}

/// A candidate anchored at the project root when relative.
pub open spec fn anchored(root: Seq<char>, c: Seq<char>) -> Seq<char> {
    if path_is_relative(c) { path_join(root, c) } else { c }
}

/// The name under which an existing candidate is reported: relative to the
/// root when under it.
pub open spec fn reported(root: Seq<char>, abs: Seq<char>) -> Seq<char> {
    match path_strip_prefix(abs, root) {
        Some(r) => r,
        None => abs,
    }
}

/// A possible outcome of resolving a relative import: one of the candidate
/// files (which existed when looked up), or unresolved.
pub open spec fn relative_outcome(root: Seq<char>, import_path: Seq<char>, from_file: Seq<char>, r: Resolution) -> bool {
    match r {
        Resolution::Internal(p) => exists|k: int|
            0 <= k < 8 && p@ == #[trigger] reported(root, anchored(root, candidate(import_path, from_file, k))),
        Resolution::Unresolved(p) => p@ == import_path,
        Resolution::External(_) => false,
    }
}

/// The files a relative import may resolve to are exactly the import path
/// joined to the importing file's directory (`base`), then `base.ts`,
/// `base.tsx`, `base.js`, `base.jsx`, `base/index.ts`, `base/index.tsx` and
/// `base/index.js`, anchored at the root and reported relative to it.
pub proof fn lemma_relative_candidates(root: Seq<char>, import_path: Seq<char>, from_file: Seq<char>, p: String)
    ensures
        relative_outcome(root, import_path, from_file, Resolution::Internal(p)) <==> {
            let base = path_join(from_dir(from_file), import_path);
            ||| p@ == reported(root, anchored(root, base))
            ||| p@ == reported(root, anchored(root, base + ".ts"@))
            ||| p@ == reported(root, anchored(root, base + ".tsx"@))
            ||| p@ == reported(root, anchored(root, base + ".js"@))
            ||| p@ == reported(root, anchored(root, base + ".jsx"@))
            ||| p@ == reported(root, anchored(root, base + "/index.ts"@))
            ||| p@ == reported(root, anchored(root, base + "/index.tsx"@))
            ||| p@ == reported(root, anchored(root, base + "/index.js"@))
        },
{
    let base = path_join(from_dir(from_file), import_path);
    assert(base + ""@ =~= base) by {
        reveal_strlit("");
    }
    assert(candidate(import_path, from_file, 0) == base + ""@);
    assert(candidate(import_path, from_file, 1) == base + ".ts"@);
    assert(candidate(import_path, from_file, 2) == base + ".tsx"@);
    assert(candidate(import_path, from_file, 3) == base + ".js"@);
    assert(candidate(import_path, from_file, 4) == base + ".jsx"@);
    assert(candidate(import_path, from_file, 5) == base + "/index.ts"@);
    assert(candidate(import_path, from_file, 6) == base + "/index.tsx"@);
    assert(candidate(import_path, from_file, 7) == base + "/index.js"@);
}

/// The first `/`-separated segment of an import path: its module.
pub open spec fn module_of(import_path: Seq<char>) -> Seq<char> {
    before_char(import_path, '/')
}

/// The first alias (in registration order) under which `import_path` lies.
pub open spec fn alias_match(aliases: Seq<(String, String)>, import_path: Seq<char>) -> Option<(Seq<char>, Seq<char>)>
    decreases aliases.len(),
{
    if aliases.len() == 0 {
        None
    } else if has_prefix(import_path, aliases[0].0@ + "/"@) {
        Some((aliases[0].0@, aliases[0].1@))
    } else {
        alias_match(aliases.drop_first(), import_path)
    }
}

/// Trailing "/*" groups removed.
pub open spec fn trim_glob(s: Seq<char>) -> Seq<char>
    decreases s.len(),
{
    if s.len() >= 2 && s[s.len() - 2] == '/' && s[s.len() - 1] == '*' {
        trim_glob(s.take(s.len() - 2))
    } else {
        s
    }
}

fn trim_glob_exec(s: &str) -> (r: String)
    ensures
        r@ == trim_glob(s@),
{
    let cs = crate::text::chars_of(s);
    let mut n = cs.len();
    assert(cs@.take(n as int) =~= cs@);
    while n >= 2 && cs[n - 2] == '/' && cs[n - 1] == '*'
        invariant
            n <= cs@.len(),
            trim_glob(s@) == trim_glob(cs@.take(n as int)),
            cs@ == s@,
        decreases n,
    {
        assert(cs@.take(n as int).take(n - 2) =~= cs@.take(n - 2));
        n = n - 2;
    }
    crate::text::string_from_chars(cs.as_slice().split_at(n).0)
}

/// What resolving `import_path` from `from_file` may give, for a project
/// at `root` with `aliases`: relative paths (and "@/" paths, read as
/// "src/", and aliased paths) are resolved against the files on disk;
/// anything else is an external module, named by its first segment.
pub open spec fn resolution_ok(
    root: Seq<char>,
    aliases: Seq<(String, String)>,
    import_path: Seq<char>,
    from_file: Seq<char>,
    r: Resolution,
) -> bool {
    &&& has_prefix(import_path, "."@) ==> relative_outcome(root, import_path, from_file, r)
    &&& !has_prefix(import_path, "."@) && has_prefix(import_path, "@/"@) ==> relative_outcome(
        root,
        replace_all(import_path, "@/"@, "src/"@),
        from_file,
        r,
    )
    &&& !has_prefix(import_path, "."@) && !has_prefix(import_path, "@/"@) ==> match alias_match(aliases, import_path) {
        Some((a, b)) => relative_outcome(root, replace_all(import_path, a + "/"@, b + "/"@), from_file, r),
        None => r matches Resolution::External(m) && m@ == module_of(import_path),
    }
}

/// The aliases as pairs of texts.
pub open spec fn alias_pairs(aliases: Seq<(String, String)>) -> Seq<(Seq<char>, Seq<char>)> {
    aliases.map_values(|a: (String, String)| (a.0@, a.1@))
}

/// The alias a tsconfig `paths` member gives: its name and its first target
/// when that is a string, trailing "/*" dropped from both.
pub open spec fn paths_entry(member: (String, JsonValue)) -> Option<(Seq<char>, Seq<char>)> {
    match member.1 {
        JsonValue::Array(targets) => if targets@.len() > 0 {
            match targets@[0] {
                JsonValue::Text(t) => Some((trim_glob(member.0@), trim_glob(t@))),
                _ => None,
            }
        } else {
            None
        },
        _ => None,
    }
}

/// The aliases of `paths` members, in their order; members without a
/// string first target give none.
pub open spec fn paths_aliases(members: Seq<(String, JsonValue)>) -> Seq<(Seq<char>, Seq<char>)>
    decreases members.len(),
{
    if members.len() == 0 {
        Seq::empty()
    } else {
        match paths_entry(members.last()) {
            Some(e) => paths_aliases(members.drop_last()).push(e),
            None => paths_aliases(members.drop_last()),
        }
    }
}

/// The members of `compilerOptions.paths` in a tsconfig document; none
/// when it is missing or not an object.
pub open spec fn tsconfig_paths(doc: JsonValue) -> Seq<(String, JsonValue)> {
    match json_get(doc, "compilerOptions"@) {
        Some(options) => match json_get(options, "paths"@) {
            Some(JsonValue::Object(members)) => members@,
            _ => Seq::empty(),
        },
        None => Seq::empty(),
    }
}

/// The path aliases a tsconfig document declares.
pub open spec fn tsconfig_aliases(doc: JsonValue) -> Seq<(Seq<char>, Seq<char>)> {
    paths_aliases(tsconfig_paths(doc))
}

/// The path aliases of a tsconfig file's text: none when it is not JSON.
pub open spec fn tsconfig_text_aliases(content: Seq<char>) -> Seq<(Seq<char>, Seq<char>)> {
    match json_value(content) {
        Some(doc) => tsconfig_aliases(doc),
        None => Seq::empty(),
    }
}

impl PathResolver {
    /// The project root, as a spec value.
    pub closed spec fn root_view(&self) -> Seq<char> {
        self.root@
    }

    /// The aliases, in registration order.
    pub closed spec fn alias_list(&self) -> Seq<(String, String)> {
        self.aliases@
    }

    /// A resolver for the project at `root`, with no aliases.
    pub fn new(root: &str) -> (r: Self)
        ensures
            r.root_view() == root@,
            r.alias_list().len() == 0,
    {
        let mut extensions: Vec<String> = Vec::new();
        extensions.push("ts".to_owned());
        extensions.push("tsx".to_owned());
        extensions.push("js".to_owned());
        extensions.push("jsx".to_owned());
        extensions.push("rs".to_owned());
        PathResolver { root: root.to_owned(), aliases: Vec::new(), extensions }
    }

    /// Registers the path aliases of a tsconfig document: for each member
    /// of `compilerOptions.paths`, in order, the member's name for its first
    /// target when that is a string.
    pub fn with_tsconfig_doc(self, doc: &JsonValue) -> (r: Self)
        ensures
            r.root_view() == self.root_view(),
            alias_pairs(r.alias_list()) == alias_pairs(self.alias_list()) + tsconfig_aliases(*doc),
    {
        let top = match doc {
            JsonValue::Object(m) => m,
            _ => {
                assert(alias_pairs(self.alias_list()) + tsconfig_aliases(*doc) =~= alias_pairs(self.alias_list()));
                return self;
            },
        };
        let options = match member_index(top, "compilerOptions") {
            Some(i) => &top[i].1,
            None => {
                assert(alias_pairs(self.alias_list()) + tsconfig_aliases(*doc) =~= alias_pairs(self.alias_list()));
                return self;
            },
        };
        let option_members = match options {
            JsonValue::Object(m) => m,
            _ => {
                assert(alias_pairs(self.alias_list()) + tsconfig_aliases(*doc) =~= alias_pairs(self.alias_list()));
                return self;
            },
        };
        let paths = match member_index(option_members, "paths") {
            Some(j) => match &option_members[j].1 {
                JsonValue::Object(m) => m,
                _ => {
                    assert(alias_pairs(self.alias_list()) + tsconfig_aliases(*doc) =~= alias_pairs(self.alias_list()));
                    return self;
                },
            },
            None => {
                assert(alias_pairs(self.alias_list()) + tsconfig_aliases(*doc) =~= alias_pairs(self.alias_list()));
                return self;
            },
        };
        assert(tsconfig_paths(*doc) == paths@);
        let ghost start = alias_pairs(self.alias_list());
        let ghost root = self.root_view();
        let mut out = self;
        let mut k: usize = 0;
        assert(paths@.take(0) =~= Seq::<(String, JsonValue)>::empty());
        assert(alias_pairs(out.alias_list()) =~= start + paths_aliases(paths@.take(0)));
        while k < paths.len()
            invariant
                k <= paths@.len(),
                out.root_view() == root,
                alias_pairs(out.alias_list()) == start + paths_aliases(paths@.take(k as int)),
            decreases paths@.len() - k,
        {
            assert(paths@.take(k + 1).drop_last() =~= paths@.take(k as int));
            assert(paths@.take(k + 1).last() == paths@[k as int]);
            let ghost before = alias_pairs(out.alias_list());
            let member = &paths[k];
            if let JsonValue::Array(targets) = &member.1 {
                if targets.len() > 0 {
                    if let JsonValue::Text(t) = &targets[0] {
                        let ghost old_list = out.alias_list();
                        out = out.with_alias(member.0.as_str(), t.as_str());
                        assert(alias_pairs(out.alias_list()) =~= alias_pairs(old_list).push((trim_glob(member.0@), trim_glob(t@))));
                    }
                }
            }
            k = k + 1;
        }
        assert(paths@.take(paths@.len() as int) =~= paths@);
        out
    }

    /// Registers the path aliases of a tsconfig file's text; the resolver
    /// unchanged when the text is not JSON.
    pub fn with_tsconfig_json(self, content: &str) -> (r: Self)
        ensures
            r.root_view() == self.root_view(),
            alias_pairs(r.alias_list()) == alias_pairs(self.alias_list()) + tsconfig_text_aliases(content@),
    {
        match parse_json(content) {
            Some(doc) => self.with_tsconfig_doc(&doc),
            None => {
                assert(alias_pairs(self.alias_list()) + tsconfig_text_aliases(content@) =~= alias_pairs(self.alias_list()));
                self
            },
        }
    }

    /// Registers the path alias `alias` for `target` (as a tsconfig `paths`
    /// entry: trailing "/*" are dropped from both).
    pub fn with_alias(self, alias: &str, target: &str) -> (r: Self)
        ensures
            r.root_view() == self.root_view(),
            r.alias_list().len() == self.alias_list().len() + 1,
            forall|k: int| 0 <= k < self.alias_list().len() ==> #[trigger] r.alias_list()[k] == self.alias_list()[k],
            r.alias_list().last().0@ == trim_glob(alias@),
            r.alias_list().last().1@ == trim_glob(target@),
    {
        let mut me = self;
        let a = trim_glob_exec(alias);
        let t = trim_glob_exec(target);
        me.aliases.push((a, t));
        me
    }

    fn resolve_relative(&self, import_path: &str, from_file: &str) -> (r: Resolution)
        ensures
            relative_outcome(self.root@, import_path@, from_file@, r),
    {
        let dir = match parent_of(from_file) {
            Some(d) => d,
            None => String::new(),
        };
        let base = join_path(dir.as_str(), import_path);
        let mut k: usize = 0;
        while k < 8
            invariant
                k <= 8,
                dir@ == from_dir(from_file@),
                base@ == path_join(from_dir(from_file@), import_path@),
            decreases 8 - k,
        {
            let mut cand = base.clone();
            append_str(&mut cand, candidate_suffix_str(k));
            let absolute = if is_relative_path(cand.as_str()) {
                join_path(self.root.as_str(), cand.as_str())
            } else {
                cand
            };
            if path_exists(absolute.as_str()) {
                let shown = match strip_path_prefix(absolute.as_str(), self.root.as_str()) {
                    Some(s) => s,
                    None => absolute,
                };
                assert(shown@ == reported(self.root@, anchored(self.root@, candidate(import_path@, from_file@, k as int))));
                return Resolution::Internal(shown);
            }
            k = k + 1;
        }
        Resolution::Unresolved(import_path.to_owned())
    }

    fn resolve_aliases(&self, import_path: &str, from_file: &str) -> (r: Option<Resolution>)
        ensures
            match alias_match(self.aliases@, import_path@) {
                Some((a, b)) => r matches Some(res) && relative_outcome(
                    self.root@,
                    replace_all(import_path@, a + "/"@, b + "/"@),
                    from_file@,
                    res,
                ),
                None => r is None,
            },
    {
        let mut k: usize = 0;
        assert(self.aliases@.skip(0) =~= self.aliases@);
        proof {
            reveal_strlit("/");
        }
        while k < self.aliases.len()
            invariant
                k <= self.aliases@.len(),
                alias_match(self.aliases@, import_path@) == alias_match(self.aliases@.skip(k as int), import_path@),
            decreases self.aliases@.len() - k,
        {
            proof {
                assert(self.aliases@.skip(k as int)[0] == self.aliases@[k as int]);
                assert(self.aliases@.skip(k as int).drop_first() =~= self.aliases@.skip(k + 1));
            }
            let mut prefix = self.aliases[k].0.clone();
            crate::text::push_char(&mut prefix, '/');
            proof {
                reveal_strlit("/");
            }
            assert(prefix@ =~= self.aliases@[k as int].0@ + "/"@);
            if str_starts_with(import_path, prefix.as_str()) {
                let mut to = self.aliases[k].1.clone();
                crate::text::push_char(&mut to, '/');
                assert(to@ =~= self.aliases@[k as int].1@ + "/"@);
                let relative = replace_str(import_path, prefix.as_str(), to.as_str());
                return Some(self.resolve_relative(relative.as_str(), from_file));
            }
            k = k + 1;
        }
        assert(self.aliases@.skip(k as int) =~= Seq::<(String, String)>::empty());
        None
    }

    /// Resolves `import_path` as written in `from_file`: relative paths (and
    /// "@/" paths, read as "src/", and aliased paths) against the files on
    /// disk; anything else is an external module, named by its first
    /// segment.
    pub fn resolve(&self, import_path: &str, from_file: &str) -> (r: Resolution)
        ensures
            resolution_ok(self.root_view(), self.alias_list(), import_path@, from_file@, r),
            has_prefix(import_path@, "."@) ==> relative_outcome(self.root_view(), import_path@, from_file@, r),
            !has_prefix(import_path@, "."@) && has_prefix(import_path@, "@/"@) ==> relative_outcome(
                self.root_view(),
                replace_all(import_path@, "@/"@, "src/"@),
                from_file@,
                r,
            ),
            !has_prefix(import_path@, "."@) && !has_prefix(import_path@, "@/"@) ==> match alias_match(
                self.alias_list(),
                import_path@,
            ) {
                Some((a, b)) => relative_outcome(self.root_view(), replace_all(import_path@, a + "/"@, b + "/"@), from_file@, r),
                None => r matches Resolution::External(m) && m@ == module_of(import_path@),
            },
    {
        if str_starts_with(import_path, ".") {
            return self.resolve_relative(import_path, from_file);
        }
        proof {
            reveal_strlit("@/");
        }
        if str_starts_with(import_path, "@/") {
            let resolved = replace_str(import_path, "@/", "src/");
            return self.resolve_relative(resolved.as_str(), from_file);
        }
        match self.resolve_aliases(import_path, from_file) {
            Some(r) => r,
            None => Resolution::External(prefix_before(import_path, '/')),
        }
    }
}

// ── Graph construction ──────────────────────────────────────────────────────

/// The role of a file, inferred from its lower-cased path and whether it
/// declares symbols.
pub open spec fn node_type_for(lower: Seq<char>, has_symbols: bool) -> NodeType {
    if has_substring(lower, "/components/"@) || (has_suffix(lower, ".tsx"@) && has_symbols) {
        NodeType::Component
    } else if has_substring(lower, "/routes/"@) || has_substring(lower, "/pages/"@) || has_suffix(lower, ".route.ts"@) {
        NodeType::Route
    } else if has_substring(lower, "/services/"@) || has_substring(lower, "/api/"@) {
        NodeType::Service
    } else if has_substring(lower, "/repositories/"@) || has_substring(lower, "/dao/"@) || has_substring(lower, "/dal/"@) {
        NodeType::Repository
    } else if has_substring(lower, "/models/"@) || has_substring(lower, "/types/"@) || has_substring(lower, "/interfaces/"@) {
        NodeType::Model
    } else if has_substring(lower, "/utils/"@) || has_substring(lower, "/helpers/"@) || has_substring(lower, "/lib/"@) {
        NodeType::Util
    } else if has_substring(lower, "/config/"@) || has_suffix(lower, ".config.ts"@) || has_suffix(lower, ".config.js"@) {
        NodeType::Config
    } else if has_substring(lower, "/test"@) || has_substring(lower, ".spec."@) || has_suffix(lower, "_test.rs"@) {
        NodeType::Test
    } else if has_substring(lower, "node_modules"@) {
        NodeType::External
    } else {
        NodeType::Unknown
    }
}

/// The role of a file from its path (case-insensitive) and symbols.
pub fn infer_node_type(path: &str, symbols: &[SymbolInfo]) -> (r: NodeType)
    ensures
        r == node_type_for(lowercase(path@), symbols@.len() > 0),
{
    let lower_s = to_lowercase(path);
    let lower = lower_s.as_str();
    let has_symbols = symbols.len() > 0;
    if str_contains(lower, "/components/") || (str_ends_with(lower, ".tsx") && has_symbols) {
        NodeType::Component
    } else if str_contains(lower, "/routes/") || str_contains(lower, "/pages/") || str_ends_with(lower, ".route.ts") {
        NodeType::Route
    } else if str_contains(lower, "/services/") || str_contains(lower, "/api/") {
        NodeType::Service
    } else if str_contains(lower, "/repositories/") || str_contains(lower, "/dao/") || str_contains(lower, "/dal/") {
        NodeType::Repository
    } else if str_contains(lower, "/models/") || str_contains(lower, "/types/") || str_contains(lower, "/interfaces/") {
        NodeType::Model
    } else if str_contains(lower, "/utils/") || str_contains(lower, "/helpers/") || str_contains(lower, "/lib/") {
        NodeType::Util
    } else if str_contains(lower, "/config/") || str_ends_with(lower, ".config.ts") || str_ends_with(lower, ".config.js") {
        NodeType::Config
    } else if str_contains(lower, "/test") || str_contains(lower, ".spec.") || str_ends_with(lower, "_test.rs") {
        NodeType::Test
    } else if str_contains(lower, "node_modules") {
        NodeType::External
    } else {
        NodeType::Unknown
    }
}

/// The node made for a scanned file.
pub open spec fn node_of(f: FileInfo, n: GraphNode) -> bool {
    &&& n.id@ == f.id@
    &&& n.label@ == f.name@
    &&& n.path@ == f.path@
    &&& n.node_type == node_type_for(lowercase(f.path@), f.symbols@.len() > 0)
    &&& n.symbol_count == f.symbols@.len()
}

/// The target of the edge made for an import: its resolved file, else its
/// module; none when it has neither.
pub open spec fn edge_target(i: ImportInfo) -> Option<Seq<char>> {
    match i.target_file_id {
        Some(t) => Some(t@),
        None => match i.target_module {
            Some(m) => Some(m@),
            None => None,
        },
    }
}

/// The imports that make edges.
pub open spec fn linking_imports(imports: Seq<ImportInfo>) -> Seq<ImportInfo>
    decreases imports.len(),
{
    if imports.len() == 0 {
        Seq::empty()
    } else if edge_target(imports.last()) is Some {
        linking_imports(imports.drop_last()).push(imports.last())
    } else {
        linking_imports(imports.drop_last())
    }
}

/// The edge made for an import.
pub open spec fn edge_of(i: ImportInfo, e: GraphEdge) -> bool {
    &&& e.source@ == i.source_file_id@
    &&& Some(e.target@) == edge_target(i)
    &&& e.imports@.len() == i.imports@.len()
    &&& forall|k: int| 0 <= k < i.imports@.len() ==> (#[trigger] e.imports@[k])@ == i.imports@[k]@
}

/// The project id of a graph: the first segment of the first file's path,
/// "unknown" without files.
pub open spec fn graph_project_id(files: Seq<FileInfo>) -> Seq<char> {
    if files.len() == 0 {
        "unknown"@
    } else {
        before_char(files[0].path@, '/')
    }
}

/// Builds dependency graphs for a project.
#[derive(Debug, Clone)]
pub struct GraphBuilder {
    resolver: PathResolver,
}

fn copy_strings(v: &Vec<String>) -> (r: Vec<String>)
    ensures
        r@.len() == v@.len(),
        forall|k: int| 0 <= k < v@.len() ==> (#[trigger] r@[k])@ == v@[k]@,
{
    let mut r: Vec<String> = Vec::new();
    let mut k: usize = 0;
    while k < v.len()
        invariant
            k <= v@.len(),
            r@.len() == k,
            forall|q: int| 0 <= q < k ==> (#[trigger] r@[q])@ == v@[q]@,
        decreases v@.len() - k,
    {
        r.push(v[k].clone());
        k = k + 1;
    }
    r
}

impl GraphBuilder {
    /// A builder for the project at `root`.
    pub fn new(root: &str) -> (r: Self)
        ensures
            r.root_view() == root@,
    {
        GraphBuilder { resolver: PathResolver::new(root) }
    }

    /// The project root, as a spec value.
    pub closed spec fn root_view(&self) -> Seq<char> {
        self.resolver.root_view()
    }

    /// The graph of `files` and `imports`: one node per file, in order, and
    /// one edge per import that has a resolved file or a module, in order,
    /// each with a fresh id; stamped with the current time.
    pub fn build(&self, files: &[FileInfo], imports: &[ImportInfo]) -> (r: Result<GraphData, crate::errors::AppError>)
        ensures
            r matches Ok(g) && {
                &&& g.nodes@.len() == files@.len()
                &&& forall|k: int| 0 <= k < files@.len() ==> node_of(#[trigger] files@[k], g.nodes@[k])
                &&& g.edges@.len() == linking_imports(imports@).len()
                &&& forall|k: int| 0 <= k < g.edges@.len() ==> edge_of(linking_imports(imports@)[k], #[trigger] g.edges@[k])
                &&& g.project_id@ == graph_project_id(files@)
            },
    {
        let mut nodes: Vec<GraphNode> = Vec::new();
        let mut k: usize = 0;
        while k < files.len()
            invariant
                k <= files@.len(),
                nodes@.len() == k,
                forall|q: int| 0 <= q < k ==> node_of(#[trigger] files@[q], nodes@[q]),
            decreases files@.len() - k,
        {
            let f = &files[k];
            let node_type = infer_node_type(f.path.as_str(), f.symbols.as_slice());
            nodes.push(
                GraphNode {
                    id: f.id.clone(),
                    label: f.name.clone(),
                    path: f.path.clone(),
                    node_type,
                    symbol_count: f.symbols.len(),
                },
            );
            k = k + 1;
        }
        let mut edges: Vec<GraphEdge> = Vec::new();
        let mut j: usize = 0;
        while j < imports.len()
            invariant
                j <= imports@.len(),
                edges@.len() == linking_imports(imports@.take(j as int)).len(),
                forall|q: int| 0 <= q < edges@.len() ==> edge_of(linking_imports(imports@.take(j as int))[q], #[trigger] edges@[q]),
            decreases imports@.len() - j,
        {
            let imp = &imports[j];
            let ghost before = linking_imports(imports@.take(j as int));
            proof {
                assert(imports@.take(j + 1).drop_last() =~= imports@.take(j as int));
                assert(imports@.take(j + 1).last() == *imp);
            }
            let target = match &imp.target_file_id {
                Some(t) => Some(t.clone()),
                None => match &imp.target_module {
                    Some(m) => Some(m.clone()),
                    None => None,
                },
            };
            match target {
                Some(t) => {
                    let e = GraphEdge {
                        id: crate::ports::new_uuid_text(),
                        source: imp.source_file_id.clone(),
                        target: t,
                        imports: copy_strings(&imp.imports),
                    };
                    edges.push(e);
                    proof {
                        assert(linking_imports(imports@.take(j + 1)) =~= before.push(*imp));
                    }
                },
                None => {
                    proof {
                        assert(linking_imports(imports@.take(j + 1)) =~= before);
                    }
                },
            }
            j = j + 1;
        }
        proof {
            assert(imports@.take(imports@.len() as int) =~= imports@);
        }
        let project_id = if files.len() > 0 {
            prefix_before(files[0].path.as_str(), '/')
        } else {
            "unknown".to_owned()
        };
        Ok(GraphData { nodes, edges, project_id, generated_at: crate::ports::utc_now_text() })
    }
}

} // verus!
