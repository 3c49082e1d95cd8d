//! The scan pipeline's pure steps: which directories and extensions a scan
//! walks, turning read sources into file records through a parser, and the
//! outline of a single file.

use vstd::prelude::*;
use crate::models::{FileInfo, ImportInfo, OutlineItem, ParseResult};
use crate::registry::ParserRegistry;
use crate::text::{chars_of, str_eq, string_from_chars};

verus! {

broadcast use vstd::seq_lib::group_seq_properties;

// ── Discovery rules ─────────────────────────────────────────────────────────

/// A file found by a scan.
#[derive(Debug, Clone)]
pub struct DiscoveredFile {
    /// Full path.
    pub path: String,
    /// Path relative to the project root.
    pub relative_path: String,
    /// Extension, without the dot.
    pub extension: String,
    /// Size in bytes.
    pub size_bytes: u64,
}

/// Walks a project directory for source files.
#[derive(Debug, Clone)]
pub struct FileWalker {
    root: String,
}

impl FileWalker {
    /// A walker for the project at `root`.
    pub fn new(root: &str) -> (r: Self)
        ensures
            r.root_view() == root@,
    {
        FileWalker { root: root.to_owned() }
    }

    /// The root, as a spec value.
    pub closed spec fn root_view(&self) -> Seq<char> {
        self.root@
    }

    /// The root walked.
    pub fn root(&self) -> (r: &str)
        ensures
            r@ == self.root_view(),
    {
        self.root.as_str()
    }
}

/// Directories never walked into.
pub open spec fn excluded_dir(name: Seq<char>) -> bool {
    name == "node_modules"@ || name == ".git"@ || name == "dist"@ || name == "build"@ || name == "target"@ || name
        == ".next"@ || name == ".nuxt"@ || name == ".svelte-kit"@ || name == "coverage"@ || name == "__pycache__"@
}

/// Whether a directory named `name` is skipped by a scan.
pub fn is_excluded_dir(name: &str) -> (r: bool)
    ensures
        r == excluded_dir(name@),
{
    str_eq(name, "node_modules") || str_eq(name, ".git") || str_eq(name, "dist") || str_eq(name, "build") || str_eq(
        name,
        "target",
    ) || str_eq(name, ".next") || str_eq(name, ".nuxt") || str_eq(name, ".svelte-kit") || str_eq(name, "coverage")
        || str_eq(name, "__pycache__")
}

/// Extensions of the files a scan keeps.
pub open spec fn supported_extension(ext: Seq<char>) -> bool {
    ext == "ts"@ || ext == "tsx"@ || ext == "js"@ || ext == "jsx"@ || ext == "rs"@ || ext == "json"@
}

/// Whether a file with extension `ext` is kept by a scan.
pub fn is_supported_extension(ext: &str) -> (r: bool)
    ensures
        r == supported_extension(ext@),
{
    str_eq(ext, "ts") || str_eq(ext, "tsx") || str_eq(ext, "js") || str_eq(ext, "jsx") || str_eq(ext, "rs") || str_eq(
        ext,
        "json",
    )
}

// ── Parsing files ───────────────────────────────────────────────────────────

/// Parses one file.
pub trait ParseFile {
    /// The results the parser may give for `source` at `path` with
    /// `extension`; any result unless the parser says which.
    open spec fn parses_file(&self, path: Seq<char>, source: Seq<char>, extension: Seq<char>, file_id: Seq<char>, r: ParseResult) -> bool {
        true
    }

    fn parse_file(&self, path: &str, source: &str, extension: &str, file_id: &str) -> (r: ParseResult)
        ensures
            self.parses_file(path@, source@, extension@, file_id@, r),
    ;
}

impl ParseFile for ParserRegistry {
    /// An empty result when no registered parser handles the extension,
    /// else a result of the first registered parser that does.
    open spec fn parses_file(&self, path: Seq<char>, source: Seq<char>, extension: Seq<char>, file_id: Seq<char>, r: ParseResult) -> bool {
        &&& !self.dispatches(extension) ==> r.is_empty_result()
        &&& forall|k: int| #[trigger] self.first_handler(k, extension) ==> self.parses_with(k, source, path, file_id, r)
    }

    fn parse_file(&self, path: &str, source: &str, extension: &str, file_id: &str) -> (r: ParseResult) {
        ParserRegistry::parse_file(self, path, source, extension, file_id)
    }
}

/// The outline of one file, from a single parse.
pub fn outline_for_file(registry: &dyn ParseFile, file_id: &str, path: &str, source: &str, extension: &str) -> (r: Vec<OutlineItem>)
    ensures
        exists|p: ParseResult| #[trigger] registry.parses_file(path@, source@, extension@, file_id@, p) && r == p.outline,
{
    let result = registry.parse_file(path, source, extension, file_id);
    result.outline
}

/// What scanning a set of files produced.
#[derive(Debug, Default)]
pub struct ScanFilesOutput {
    /// One record per file read, in order.
    pub file_infos: Vec<FileInfo>,
    /// The imports of all files read, in order.
    pub all_imports: Vec<ImportInfo>,
    /// The outline of each file read, by relative path.
    pub outlines: Vec<(String, Vec<OutlineItem>)>,
    /// Milliseconds spent discovering the files.
    pub discover_ms: u64,
    /// Milliseconds spent reading and parsing.
    pub parse_ms: u64,
    /// Number of calls made to the parser.
    pub registry_call_count: usize,
    /// Files that could not be read.
    pub files_failed: usize,
    /// Files read.
    pub files_read: usize,
}

impl ScanFilesOutput {
    /// The same output with the discovery time set.
    pub fn with_discover_ms(self, discover_ms: u64) -> (r: Self)
        ensures
            r.discover_ms == discover_ms,
            r.parse_ms == self.parse_ms,
            r.registry_call_count == self.registry_call_count,
            r.files_failed == self.files_failed,
            r.files_read == self.files_read,
    {
        let mut me = self;
        me.discover_ms = discover_ms;
        me
    }
}

/// Number of line breaks in `s`.
pub open spec fn newline_count(s: Seq<char>) -> nat
    decreases s.len(),
{
    if s.len() == 0 {
        0
    } else {
        newline_count(s.drop_last()) + if s.last() == '\n' { 1nat } else { 0nat }
    }
}

/// Number of lines of `s`, as `str::lines` counts them: a final line
/// without a line break counts too.
pub open spec fn line_count(s: Seq<char>) -> nat {
    newline_count(s) + if s.len() > 0 && s.last() != '\n' { 1nat } else { 0nat }
}

/// Position just after the last `/` of `s`, or 0.
pub open spec fn after_last_slash(s: Seq<char>) -> int
    decreases s.len(),
{
    if s.len() == 0 {
        0
    } else if s.last() == '/' {
        s.len() as int
    } else {
        after_last_slash(s.drop_last())
    }
}

/// The last `/`-separated segment of a path: the file name.
pub open spec fn file_name_of(path: Seq<char>) -> Seq<char> {
    path.skip(after_last_slash(path))
}

fn count_lines(s: &str) -> (r: u32)
    ensures
        r == line_count(s@) % 0x1_0000_0000,
{
    let cs = chars_of(s);
    let mut n: u128 = 0;
    let mut i: usize = 0;
    proof {
        assert(cs@.take(0) =~= Seq::<char>::empty());
    }
    while i < cs.len()
        invariant
            i <= cs@.len(),
            n == newline_count(cs@.take(i as int)),
            n <= i,
        decreases cs@.len() - i,
    {
        assert(cs@.take(i + 1).drop_last() =~= cs@.take(i as int));
        if cs[i] == '\n' {
            n = n + 1;
        }
        i = i + 1;
    }
    assert(cs@.take(i as int) =~= cs@);
    let total = if cs.len() > 0 && cs[cs.len() - 1] != '\n' { n + 1 } else { n };
    (total % 0x1_0000_0000) as u32
}

/// The file name of a path: its last `/`-separated segment.
pub fn file_name(path: &str) -> (r: String)
    ensures
        r@ == file_name_of(path@),
{
    let cs = chars_of(path);
    let mut p: usize = cs.len();
    proof {
        assert(cs@.take(p as int) =~= cs@);
    }
    while p > 0 && cs[p - 1] != '/'
        invariant
            p <= cs@.len(),
            after_last_slash(cs@) == after_last_slash(cs@.take(p as int)),
        decreases p,
    {
        assert(cs@.take(p as int).drop_last() =~= cs@.take(p - 1));
        p = p - 1;
    }
    proof {
        if p > 0 {
            assert(cs@.take(p as int).last() == '/');
        }
    }
    let mut out = String::new();
    let mut k = p;
    while k < cs.len()
        invariant
            p <= k <= cs@.len(),
            out@ == cs@.subrange(p as int, k as int),
        decreases cs@.len() - k,
    {
        crate::text::push_char(&mut out, cs[k]);
        assert(cs@.subrange(p as int, k + 1) =~= cs@.subrange(p as int, k as int).push(cs@[k as int]));
        k = k + 1;
    }
    assert(cs@.skip(p as int) =~= cs@.subrange(p as int, cs@.len() as int));
    out
}

/// The files that were read, in order.
pub open spec fn read_files(files: Seq<DiscoveredFile>, sources: Seq<Option<String>>) -> Seq<(DiscoveredFile, String)>
    decreases files.len(),
{
    if files.len() == 0 || sources.len() == 0 {
        Seq::empty()
    } else {
        let rest = read_files(files.drop_last(), sources.drop_last());
        match sources.last() {
            Some(s) => rest.push((files.last(), s)),
            None => rest,
        }
    }
}

/// The record of a file read, apart from its id and symbols.
pub open spec fn file_record_ok(fi: FileInfo, f: DiscoveredFile, source: Seq<char>) -> bool {
    &&& fi.path@ == f.relative_path@
    &&& fi.name@ == file_name_of(f.path@)
    &&& fi.extension@ == f.extension@
    &&& fi.lines == line_count(source) % 0x1_0000_0000
}

/// The imports of a sequence of parse results, one after the other.
pub open spec fn parsed_imports(ps: Seq<ParseResult>) -> Seq<ImportInfo>
    decreases ps.len(),
{
    if ps.len() == 0 {
        Seq::empty()
    } else {
        parsed_imports(ps.drop_last()) + ps.last().imports@
    }
}

/// The scan output carries the parse results `ps`, one per file read: each
/// file's symbols and outline, and all their imports in order.
pub open spec fn carries_parses(
    read: Seq<(DiscoveredFile, String)>,
    ps: Seq<ParseResult>,
    file_infos: Seq<FileInfo>,
    outlines: Seq<(String, Vec<OutlineItem>)>,
    imports: Seq<ImportInfo>,
) -> bool {
    &&& ps.len() == read.len()
    &&& file_infos.len() == read.len()
    &&& outlines.len() == read.len()
    &&& forall|k: int| 0 <= k < ps.len() ==> (#[trigger] file_infos[k]).symbols == ps[k].symbols && outlines[k].1 == ps[k].outline
    &&& imports == parsed_imports(ps)
}

/// Parses the sources read for `files` (`None` where a file could not be
/// read): one parse per file read, each giving a file record (fresh id,
/// relative path, file name, extension, symbols and line count), its
/// imports and its outline.
pub fn scan_sources(registry: &dyn ParseFile, files: &[DiscoveredFile], sources: Vec<Option<String>>) -> (r: ScanFilesOutput)
    requires
        sources@.len() == files@.len(),
    ensures
        r.files_read == read_files(files@, sources@).len(),
        r.files_read + r.files_failed == files@.len(),
        r.registry_call_count == r.files_read,
        r.file_infos@.len() == r.files_read,
        r.outlines@.len() == r.files_read,
        forall|k: int|
            0 <= k < r.file_infos@.len() ==> file_record_ok(
                #[trigger] r.file_infos@[k],
                read_files(files@, sources@)[k].0,
                read_files(files@, sources@)[k].1@,
            ) && r.outlines@[k].0@ == read_files(files@, sources@)[k].0.relative_path@,
        exists|ps: Seq<ParseResult>|
            #[trigger] carries_parses(read_files(files@, sources@), ps, r.file_infos@, r.outlines@, r.all_imports@)
                && forall|k: int| 0 <= k < ps.len() ==> #[trigger] registry.parses_file(
                    read_files(files@, sources@)[k].0.path@,
                    read_files(files@, sources@)[k].1@,
                    read_files(files@, sources@)[k].0.extension@,
                    read_files(files@, sources@)[k].0.relative_path@,
                    ps[k],
                ),
        r.discover_ms == 0,
        r.parse_ms == 0,
{
    let mut out = ScanFilesOutput {
        file_infos: Vec::new(),
        all_imports: Vec::new(),
        outlines: Vec::new(),
        discover_ms: 0,
        parse_ms: 0,
        registry_call_count: 0,
        files_failed: 0,
        files_read: 0,
    };
    let ghost all = read_files(files@, sources@);
    let ghost mut ps: Seq<ParseResult> = Seq::empty();
    let mut k: usize = 0;
    proof {
        assert(files@.take(0) =~= Seq::<DiscoveredFile>::empty());
        assert(sources@.take(0) =~= Seq::<Option<String>>::empty());
    }
    while k < files.len()
        invariant
            k <= files@.len(),
            sources@.len() == files@.len(),
            all == read_files(files@, sources@),
            out.files_read == read_files(files@.take(k as int), sources@.take(k as int)).len(),
            out.files_read + out.files_failed == k,
            out.registry_call_count == out.files_read,
            out.file_infos@.len() == out.files_read,
            out.outlines@.len() == out.files_read,
            forall|q: int|
                0 <= q < out.file_infos@.len() ==> file_record_ok(
                    #[trigger] out.file_infos@[q],
                    read_files(files@.take(k as int), sources@.take(k as int))[q].0,
                    read_files(files@.take(k as int), sources@.take(k as int))[q].1@,
                ) && out.outlines@[q].0@ == read_files(files@.take(k as int), sources@.take(k as int))[q].0.relative_path@,
            carries_parses(read_files(files@.take(k as int), sources@.take(k as int)), ps, out.file_infos@, out.outlines@, out.all_imports@),
            forall|q: int| 0 <= q < ps.len() ==> #[trigger] registry.parses_file(
                read_files(files@.take(k as int), sources@.take(k as int))[q].0.path@,
                read_files(files@.take(k as int), sources@.take(k as int))[q].1@,
                read_files(files@.take(k as int), sources@.take(k as int))[q].0.extension@,
                read_files(files@.take(k as int), sources@.take(k as int))[q].0.relative_path@,
                ps[q],
            ),
            out.discover_ms == 0,
            out.parse_ms == 0,
        decreases files@.len() - k,
    {
        let f = &files[k];
        let ghost prev = read_files(files@.take(k as int), sources@.take(k as int));
        proof {
            assert(files@.take(k + 1).drop_last() =~= files@.take(k as int));
            assert(sources@.take(k + 1).drop_last() =~= sources@.take(k as int));
            assert(files@.take(k + 1).last() == *f);
            assert(sources@.take(k + 1).last() == sources@[k as int]);
        }
        match &sources[k] {
            Some(source) => {
                let result = registry.parse_file(f.path.as_str(), source.as_str(), f.extension.as_str(), f.relative_path.as_str());
                let ghost parsed = result;
                assert(registry.parses_file(f.path@, source@, f.extension@, f.relative_path@, parsed));
                let ghost ps0 = ps;
                let ghost im0 = out.all_imports@;
                out.registry_call_count = out.registry_call_count + 1;
                out.files_read = out.files_read + 1;
                let ParseResult { symbols, mut imports, outline, lexical_kind: _, references: _ } = result;
                let info = FileInfo {
                    id: crate::ports::new_uuid_text(),
                    path: f.relative_path.clone(),
                    name: file_name(f.path.as_str()),
                    extension: f.extension.clone(),
                    symbols,
                    lines: count_lines(source.as_str()),
                };
                let ghost fi0 = out.file_infos@;
                let ghost ol0 = out.outlines@;
                out.all_imports.append(&mut imports);
                out.outlines.push((f.relative_path.clone(), outline));
                out.file_infos.push(info);
                proof {
                    let next = read_files(files@.take(k + 1), sources@.take(k + 1));
                    assert(next == prev.push((*f, *source)));
                    ps = ps0.push(parsed);
                    assert(ps.drop_last() =~= ps0);
                    assert(out.all_imports@ =~= parsed_imports(ps));
                    assert forall|q: int| 0 <= q < ps.len() implies #[trigger] registry.parses_file(
                        next[q].0.path@,
                        next[q].1@,
                        next[q].0.extension@,
                        next[q].0.relative_path@,
                        ps[q],
                    ) by {
                        assert(ps0.len() == prev.len());
                        if q < ps0.len() {
                            assert(ps[q] == ps0[q]);
                            assert(next[q] == prev[q]);
                        } else {
                            assert(next[q] == (*f, *source));
                            assert(ps[q] == parsed);
                        }
                    }
                    assert forall|q: int| 0 <= q < ps.len() implies (#[trigger] out.file_infos@[q]).symbols == ps[q].symbols
                        && out.outlines@[q].1 == ps[q].outline by {
                        if q < ps0.len() {
                            assert(ps[q] == ps0[q]);
                            assert(out.file_infos@[q] == fi0[q]);
                            assert(out.outlines@[q] == ol0[q]);
                        }
                    }
                    assert forall|q: int| 0 <= q < out.file_infos@.len() implies file_record_ok(
                        #[trigger] out.file_infos@[q],
                        next[q].0,
                        next[q].1@,
                    ) && out.outlines@[q].0@ == next[q].0.relative_path@ by {
                        if q < fi0.len() {
                            assert(out.file_infos@[q] == fi0[q]);
                            assert(out.outlines@[q] == ol0[q]);
                        }
                    }
                }
            },
            None => {
                out.files_failed = out.files_failed + 1;
                proof {
                    assert(read_files(files@.take(k + 1), sources@.take(k + 1)) == prev);
                }
            },
        }
        k = k + 1;
    }
    proof {
        assert(files@.take(k as int) =~= files@);
        assert(sources@.take(k as int) =~= sources@);
    }
    out
}

} // verus!
