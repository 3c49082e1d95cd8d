//! Ports of the engine: time, identifiers and elapsed time, the stores the
//! services read and write, and the transient application state.
//!
//! Adapters that talk to the system (clock, random identifiers, monotonic
//! time) are thin calls into std, chrono and uuid; the mock adapters are
//! plain values for deterministic tests.

use vstd::prelude::*;
use crate::errors::AppError;
use crate::models::{AIConfig, FileInfo, ImportInfo, NodeRef, OutlineItem, ProjectMeta, ScanResult, ScanStatus, C4View};

verus! {

// ── Time and identifiers ────────────────────────────────────────────────────

/// Source of the current wall-clock time, as RFC 3339 text in UTC.
pub trait Clock {
    /// `time` is a time the clock may report; any text unless the clock
    /// says which.
    open spec fn gives_time(&self, time: Seq<char>) -> bool {
        true
    }

    /// The current time.
    fn now(&self) -> (r: String)
        ensures
            self.gives_time(r@),
    ;
}

/// Source of fresh identifiers, as hyphenated UUID text.
pub trait IdGenerator {
    /// One step of the generator from this state to `next` may hand out
    /// `id`; any step and identifier unless the generator says which.
    open spec fn gives_id(&self, next: Self, id: Seq<char>) -> bool where Self: Sized {
        true
    }

    /// A new identifier.
    fn next_id(&mut self) -> (r: String)
        where Self: Sized
        ensures
            old(self).gives_id(*final(self), r@),
    ;
}

/// The system clock.
pub struct SystemClock;

/// chrono's `Utc::now()` rendered with `to_rfc3339`: the current time,
/// which depends on the machine; nothing is stated of it.
#[verifier::external_body]
pub(crate) fn utc_now_text() -> String {
    chrono::Utc::now().to_rfc3339()
}

impl Clock for SystemClock {
    fn now(&self) -> String {
        utc_now_text()
    }
}

/// Random (version 4) identifiers.
pub struct RandomIdGen;

/// uuid's `Uuid::new_v4()` in hyphenated form (`to_string`): random, so
/// only its length, that of a hyphenated UUID (`Hyphenated::LENGTH`, 36
/// ASCII characters), is stated.
#[verifier::external_body]
pub(crate) fn new_uuid_text() -> (r: String)
    ensures
        r@.len() == 36,
{
    uuid::Uuid::new_v4().to_string()
}

impl IdGenerator for RandomIdGen {
    open spec fn gives_id(&self, next: Self, id: Seq<char>) -> bool {
        id.len() == 36
    }

    fn next_id(&mut self) -> (r: String)
        ensures
            r@.len() == 36,
    {
        new_uuid_text()
    }
}

/// The lower-case hexadecimal digit of `d` (below 16).
pub open spec fn hex_digit(d: int) -> char {
    if d < 10 {
        (('0' as int) + d) as char
    } else {
        (('a' as int) + d - 10) as char
    }
}

/// The `i`-th hexadecimal digit of `v`, most significant first (of 32).
pub open spec fn nibble(v: u128, i: int) -> int {
    ((v as int) / vstd::arithmetic::power::pow(16, (31 - i) as nat)) % 16
}

/// Which of the 32 digits stands at position `p` of the hyphenated text.
pub open spec fn digit_at(p: int) -> int {
    if p < 8 {
        p
    } else if p < 13 {
        p - 1
    } else if p < 18 {
        p - 2
    } else if p < 23 {
        p - 3
    } else {
        p - 4
    }
}

/// Hyphenated text of the UUID whose 128 bits, most significant first, are
/// `v`: its 32 lower-case hexadecimal digits in groups of 8, 4, 4, 4 and 12,
/// with a hyphen between groups.
pub open spec fn uuid_text(v: u128) -> Seq<char> {
    Seq::new(36, |p: int|
        if p == 8 || p == 13 || p == 18 || p == 23 {
            '-'
        } else {
            hex_digit(nibble(v, digit_at(p)))
        })
}

/// uuid's `Uuid::from_u128(v)` in hyphenated form (`to_string`): the 32
/// hexadecimal digits of `v`, lower case, hyphenated (`uuid_text`).
#[verifier::external_body]
fn uuid_text_of(v: u128) -> (r: String)
    ensures
        r@ == uuid_text(v),
{
    uuid::Uuid::from_u128(v).to_string()
}

/// The 128-bit value of the identifier a mock generator returns for the
/// counter value `n`: the nil UUID first, then `n` in the most significant
/// 64 bits.
pub open spec fn mock_id_value(n: u64) -> nat {
    if n == 0 {
        0
    } else {
        (n * 0x1_0000_0000_0000_0000) as nat
    }
}

/// Counter-based identifiers for deterministic tests.
#[derive(Debug, Clone)]
pub struct MockIdGen {
    counter: u64,
}

impl MockIdGen {
    /// Current counter, as a spec value.
    pub closed spec fn count(&self) -> u64 {
        self.counter
    }

    /// A generator whose counter starts at 0.
    pub fn new() -> (r: Self)
        ensures
            r.count() == 0,
    {
        MockIdGen { counter: 0 }
    }

    /// The current counter value, without advancing it.
    pub fn counter(&self) -> (r: u64)
        ensures
            r == self.count(),
    {
        self.counter
    }

    /// Advances the counter by `n` (wrapping, as an atomic add does).
    pub fn advance_by(&mut self, n: u64)
        ensures
            final(self).count() == (old(self).count() + n) % 0x1_0000_0000_0000_0000,
    {
        self.counter = self.counter.wrapping_add(n);
    }

    /// The value of the next identifier; advances the counter by one.
    pub fn next_value(&mut self) -> (r: u128)
        ensures
            r == mock_id_value(old(self).count()),
            final(self).count() == (old(self).count() + 1) % 0x1_0000_0000_0000_0000,
    {
        let n = self.counter;
        self.counter = self.counter.wrapping_add(1);
        if n == 0 {
            0
        } else {
            assert((n as u128) * 0x1_0000_0000_0000_0000u128 <= u128::MAX) by (nonlinear_arith)
                requires
                    n <= u64::MAX,
            ;
            (n as u128) * 0x1_0000_0000_0000_0000u128
        }
    }
}

impl Default for MockIdGen {
    fn default() -> (r: Self)
        ensures
            r.count() == 0,
    {
        MockIdGen::new()
    }
}

impl IdGenerator for MockIdGen {
    open spec fn gives_id(&self, next: Self, id: Seq<char>) -> bool {
        &&& id == uuid_text(mock_id_value(self.count()) as u128)
        &&& next.count() == (self.count() + 1) % 0x1_0000_0000_0000_0000
    }

    fn next_id(&mut self) -> (r: String)
        ensures
            r@ == uuid_text(mock_id_value(old(self).count()) as u128),
            final(self).count() == (old(self).count() + 1) % 0x1_0000_0000_0000_0000,
    {
        let v = self.next_value();
        uuid_text_of(v)
    }
}

// ── Elapsed time ────────────────────────────────────────────────────────────

/// Opaque handle returned by [`Stopwatch::start`].
#[verifier::external_type_specification]
#[verifier::external_body]
pub struct ExInstant(std::time::Instant);

/// Opaque start handle of a stopwatch.
#[derive(Debug)]
pub struct StopwatchHandle(std::time::Instant);

/// std's `Instant::now()`: the current monotonic time.
#[verifier::external_body]
pub(crate) fn instant_now() -> std::time::Instant {
    std::time::Instant::now()
}

/// std's `Instant::elapsed`, in whole milliseconds (`as_millis`, cut to
/// 64 bits): depends on the time of the call; nothing is stated of it.
#[verifier::external_body]
fn millis_since(i: &std::time::Instant) -> u64 {
    i.elapsed().as_millis() as u64
}

impl StopwatchHandle {
    /// The instant the stopwatch started at, as a spec value.
    pub closed spec fn started(&self) -> std::time::Instant {
        self.0
    }

    pub(crate) fn from_instant(i: std::time::Instant) -> (r: Self)
        ensures
            r.started() == i,
    {
        StopwatchHandle(i)
    }

    pub(crate) fn as_instant(&self) -> (r: &std::time::Instant)
        ensures
            *r == self.started(),
    {
        &self.0
    }
}

/// Elapsed wall-clock time in milliseconds.
pub trait Stopwatch {
    /// Starts the stopwatch and returns a handle.
    fn start(&self) -> StopwatchHandle;

    /// Milliseconds elapsed since `handle` was obtained.
    fn elapsed_ms(&self, handle: &StopwatchHandle) -> u64;
}

/// The system's monotonic clock.
pub struct SystemStopwatch;

impl Stopwatch for SystemStopwatch {
    fn start(&self) -> StopwatchHandle {
        StopwatchHandle::from_instant(instant_now())
    }

    fn elapsed_ms(&self, handle: &StopwatchHandle) -> u64 {
        millis_since(handle.as_instant())
    }
}

/// A stopwatch that reports a set value for every handle.
#[derive(Debug, Clone)]
pub struct MockStopwatch {
    elapsed_ms: u64,
}

impl MockStopwatch {
    /// The value reported, as a spec value.
    pub closed spec fn reported(&self) -> u64 {
        self.elapsed_ms
    }

    /// A stopwatch reporting 0 ms.
    pub fn new() -> (r: Self)
        ensures
            r.reported() == 0,
    {
        MockStopwatch { elapsed_ms: 0 }
    }

    /// A stopwatch reporting `elapsed_ms`.
    pub fn with_elapsed_ms(elapsed_ms: u64) -> (r: Self)
        ensures
            r.reported() == elapsed_ms,
    {
        MockStopwatch { elapsed_ms }
    }

    /// Sets the value reported for all handles.
    pub fn set_elapsed_ms(&mut self, ms: u64)
        ensures
            final(self).reported() == ms,
    {
        self.elapsed_ms = ms;
    }
}

impl Default for MockStopwatch {
    fn default() -> (r: Self)
        ensures
            r.reported() == 0,
    {
        MockStopwatch::new()
    }
}

impl Stopwatch for MockStopwatch {
    fn start(&self) -> StopwatchHandle {
        StopwatchHandle::from_instant(instant_now())
    }

    fn elapsed_ms(&self, handle: &StopwatchHandle) -> (r: u64)
        ensures
            r == self.reported(),
    {
        self.elapsed_ms
    }
}

// ── Stores ──────────────────────────────────────────────────────────────────

/// The view of an optional string argument.
pub open spec fn opt_str(o: Option<&str>) -> Option<Seq<char>> {
    match o {
        Some(x) => Some(x@),
        None => None,
    }
}

/// Persistence of scan results and project lookup. Each `gives_*` spec
/// function says which answers the store may give to the call of the same
/// name; a store that says nothing may give any answer.
pub trait ScanRepository {
    open spec fn gives_save_scan_result(&self, result: ScanResult, r: Result<(), AppError>) -> bool {
        true
    }

    open spec fn gives_project_by_path(&self, root_path: Seq<char>, r: Result<Option<ProjectMeta>, AppError>) -> bool {
        true
    }

    open spec fn gives_project(&self, project_id: Seq<char>, r: Result<Option<(String, String, i64)>, AppError>) -> bool {
        true
    }

    open spec fn gives_files(&self, project_id: Seq<char>, r: Result<Vec<FileInfo>, AppError>) -> bool {
        true
    }

    open spec fn gives_imports(&self, project_id: Seq<char>, r: Result<Vec<ImportInfo>, AppError>) -> bool {
        true
    }

    open spec fn gives_file_by_id(&self, file_id: Seq<char>, r: Result<Option<FileInfo>, AppError>) -> bool {
        true
    }

    open spec fn gives_save_import(&self, import: ImportInfo, r: Result<(), AppError>) -> bool {
        true
    }

    open spec fn gives_scan_status(&self, project_id: Seq<char>, r: Result<Option<ScanStatus>, AppError>) -> bool {
        true
    }

    open spec fn gives_cancel(&self, project_id: Seq<char>, r: Result<(), AppError>) -> bool {
        true
    }

    fn save_scan_result(&self, result: &ScanResult) -> (r: Result<(), AppError>)
        ensures
            self.gives_save_scan_result(*result, r),
    ;

    fn get_project_by_path(&self, root_path: &str) -> (r: Result<Option<ProjectMeta>, AppError>)
        ensures
            self.gives_project_by_path(root_path@, r),
    ;

    fn get_project(&self, project_id: &str) -> (r: Result<Option<(String, String, i64)>, AppError>)
        ensures
            self.gives_project(project_id@, r),
    ;

    fn get_files(&self, project_id: &str) -> (r: Result<Vec<FileInfo>, AppError>)
        ensures
            self.gives_files(project_id@, r),
    ;

    fn get_imports(&self, project_id: &str) -> (r: Result<Vec<ImportInfo>, AppError>)
        ensures
            self.gives_imports(project_id@, r),
    ;

    fn save_import(&self, import: &ImportInfo) -> (r: Result<(), AppError>)
        ensures
            self.gives_save_import(*import, r),
    ;

    fn get_file_by_id(&self, file_id: &str) -> (r: Result<Option<FileInfo>, AppError>)
        ensures
            self.gives_file_by_id(file_id@, r),
    ;

    fn save_outline_items(&self, file_id: &str, items: &[OutlineItem]) -> Result<(), AppError>;

    fn get_outline_items(&self, file_id: &str) -> Result<Vec<OutlineItem>, AppError>;

    fn get_scan_status(&self, project_id: &str) -> (r: Result<Option<ScanStatus>, AppError>)
        ensures
            self.gives_scan_status(project_id@, r),
    ;

    fn cancel(&self, project_id: &str) -> (r: Result<(), AppError>)
        ensures
            self.gives_cancel(project_id@, r),
    ;
}

/// Persistence of graph caches, file search and graph queries; the
/// `gives_*` spec functions are as for [`ScanRepository`].
pub trait GraphRepository {
    open spec fn gives_search_files(&self, project_id: Seq<char>, query: Seq<char>, limit: usize, r: Result<Vec<FileInfo>, AppError>) -> bool {
        true
    }

    open spec fn gives_dependencies(&self, node_id: Seq<char>, r: Result<Vec<NodeRef>, AppError>) -> bool {
        true
    }

    open spec fn gives_dependents(&self, node_id: Seq<char>, r: Result<Vec<NodeRef>, AppError>) -> bool {
        true
    }

    fn save_graph_cache(&self, project_id: &str, graph_json: &str) -> Result<(), AppError>;

    fn get_graph_cache(&self, project_id: &str) -> Result<Option<String>, AppError>;

    fn search_files(&self, project_id: &str, query: &str, limit: usize) -> (r: Result<Vec<FileInfo>, AppError>)
        ensures
            self.gives_search_files(project_id@, query@, limit, r),
    ;

    /// `r` is an answer the store may give for the project root of the
    /// file `file_id`; any answer unless the store says which.
    open spec fn gives_project_root_for_file(&self, file_id: Seq<char>, r: Result<Option<String>, AppError>) -> bool {
        true
    }

    fn get_project_root_for_file(&self, file_id: &str) -> (r: Result<Option<String>, AppError>)
        ensures
            self.gives_project_root_for_file(file_id@, r),
    ;

    fn save_outline_items(&self, file_id: &str, items: &[OutlineItem]) -> Result<(), AppError>;

    /// `r` is an answer the store may give for the outline stored for
    /// `file_id`; any answer unless the store says which.
    open spec fn gives_outline_items(&self, file_id: Seq<char>, r: Result<Vec<OutlineItem>, AppError>) -> bool {
        true
    }

    fn get_outline_items(&self, file_id: &str) -> (r: Result<Vec<OutlineItem>, AppError>)
        ensures
            self.gives_outline_items(file_id@, r),
    ;

    fn get_dependencies(&self, node_id: &str) -> (r: Result<Vec<NodeRef>, AppError>)
        ensures
            self.gives_dependencies(node_id@, r),
    ;

    fn get_dependents(&self, node_id: &str) -> (r: Result<Vec<NodeRef>, AppError>)
        ensures
            self.gives_dependents(node_id@, r),
    ;
}

/// A stored snapshot: id, project id, workspace id, label, creation time
/// and payload.
pub type SnapshotRow = (String, String, Option<String>, String, String, Option<String>);

/// A stored comment: id, project id, node id, author, kind, text and
/// creation time.
pub type CommentRow = (String, String, String, String, String, String, String);

/// Persistence of workspaces, snapshots, comments and architecture views;
/// the `gives_*` spec functions are as for [`ScanRepository`].
pub trait WorkspaceRepository {
    open spec fn gives_create_workspace(&self, name: Seq<char>, r: Result<(String, String, String), AppError>) -> bool {
        true
    }

    open spec fn gives_workspaces(&self, r: Result<Vec<(String, String, String)>, AppError>) -> bool {
        true
    }

    open spec fn gives_attach(&self, workspace_id: Seq<char>, project_id: Seq<char>, r: Result<(), AppError>) -> bool {
        true
    }

    open spec fn gives_workspace_projects(&self, workspace_id: Seq<char>, r: Result<Vec<(String, String)>, AppError>) -> bool {
        true
    }

    open spec fn gives_create_snapshot(
        &self,
        project_id: Seq<char>,
        label: Seq<char>,
        workspace_id: Option<Seq<char>>,
        r: Result<SnapshotRow, AppError>,
    ) -> bool {
        true
    }

    open spec fn gives_snapshot(&self, snapshot_id: Seq<char>, r: Result<Option<SnapshotRow>, AppError>) -> bool {
        true
    }

    open spec fn gives_snapshots(&self, project_id: Seq<char>, workspace_id: Option<Seq<char>>, r: Result<Vec<SnapshotRow>, AppError>) -> bool {
        true
    }

    open spec fn gives_add_comment(
        &self,
        project_id: Seq<char>,
        node_id: Seq<char>,
        author: Seq<char>,
        text: Seq<char>,
        kind: Option<Seq<char>>,
        r: Result<CommentRow, AppError>,
    ) -> bool {
        true
    }

    open spec fn gives_comments(&self, project_id: Seq<char>, node_id: Option<Seq<char>>, r: Result<Vec<CommentRow>, AppError>) -> bool {
        true
    }

    open spec fn gives_c4_view(&self, project_id: Seq<char>, level: u8, r: Result<C4View, AppError>) -> bool {
        true
    }

    fn create_workspace(&self, name: &str) -> (r: Result<(String, String, String), AppError>)
        ensures
            self.gives_create_workspace(name@, r),
    ;

    fn list_workspaces(&self) -> (r: Result<Vec<(String, String, String)>, AppError>)
        ensures
            self.gives_workspaces(r),
    ;

    fn attach_project_to_workspace(&self, workspace_id: &str, project_id: &str) -> (r: Result<(), AppError>)
        ensures
            self.gives_attach(workspace_id@, project_id@, r),
    ;

    fn list_workspace_projects(&self, workspace_id: &str) -> (r: Result<Vec<(String, String)>, AppError>)
        ensures
            self.gives_workspace_projects(workspace_id@, r),
    ;

    fn create_snapshot(&self, project_id: &str, label: &str, workspace_id: Option<&str>) -> (r: Result<SnapshotRow, AppError>)
        ensures
            self.gives_create_snapshot(project_id@, label@, opt_str(workspace_id), r),
    ;

    fn get_snapshot(&self, snapshot_id: &str) -> (r: Result<Option<SnapshotRow>, AppError>)
        ensures
            self.gives_snapshot(snapshot_id@, r),
    ;

    fn list_snapshots(&self, project_id: &str, workspace_id: Option<&str>) -> (r: Result<Vec<SnapshotRow>, AppError>)
        ensures
            self.gives_snapshots(project_id@, opt_str(workspace_id), r),
    ;

    fn add_comment(
        &self,
        project_id: &str,
        node_id: &str,
        author: &str,
        text: &str,
        kind: Option<&str>,
    ) -> (r: Result<CommentRow, AppError>)
        ensures
            self.gives_add_comment(project_id@, node_id@, author@, text@, opt_str(kind), r),
    ;

    fn list_comments(&self, project_id: &str, node_id: Option<&str>) -> (r: Result<Vec<CommentRow>, AppError>)
        ensures
            self.gives_comments(project_id@, opt_str(node_id), r),
    ;

    fn get_c4_view(&self, project_id: &str, level: u8) -> (r: Result<C4View, AppError>)
        ensures
            self.gives_c4_view(project_id@, level, r),
    ;
}

/// Transient in-memory application state; the `gives_*` spec functions are
/// as for [`ScanRepository`].
pub trait AppStatePort {
    open spec fn gives_scan_status(&self, r: Result<ScanStatus, AppError>) -> bool {
        true
    }

    open spec fn gives_set_scan_status(&self, status: ScanStatus, r: Result<(), AppError>) -> bool {
        true
    }

    open spec fn gives_set_project_root(&self, path: Seq<char>, r: Result<(), AppError>) -> bool {
        true
    }

    fn get_scan_status(&self) -> (r: Result<ScanStatus, AppError>)
        ensures
            self.gives_scan_status(r),
    ;

    fn set_scan_status(&self, status: ScanStatus) -> (r: Result<(), AppError>)
        ensures
            self.gives_set_scan_status(status, r),
    ;

    fn get_ai_config(&self) -> Result<Option<AIConfig>, AppError>;

    fn set_ai_config(&self, config: AIConfig) -> Result<(), AppError>;

    fn get_project_root(&self) -> Result<String, AppError>;

    fn set_project_root(&self, path: &str) -> (r: Result<(), AppError>)
        ensures
            self.gives_set_project_root(path@, r),
    ;
}

} // verus!
