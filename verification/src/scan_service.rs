//! The scan use case: turning scanned files into a persisted project,
//! resolving their imports, judging how well the imports were persisted,
//! and the project status around it.

use vstd::prelude::*;
use crate::commands::ScanFilesOutput;
use crate::errors::{error_text, is_root_path_conflict, root_path_conflict_text, AppError};
use crate::graph::{resolution_ok, PathResolver, Resolution};
use crate::models::{FileInfo, ImportInfo, OutlineItem, ProjectMeta, ScanResult, ScanStatus};
use crate::ports::{AppStatePort, ScanRepository};
use crate::text::{append_str, decimal, has_substring, push_decimal, str_eq};

verus! {

broadcast use vstd::seq_lib::group_seq_properties;

/// What cancelling a scan in status `status` does: an unknown scan is an
/// error; a running scan (scanning or building its graph) must be told to
/// stop (`Ok(true)`); any other scan is left alone (`Ok(false)`).
pub open spec fn cancel_outcome_spec(scan_id: Seq<char>, status: Option<ScanStatus>, r: Result<bool, AppError>) -> bool {
    match status {
        None => r matches Err(AppError::NotFound(id)) && id@ == scan_id,
        Some(ScanStatus::Scanning) | Some(ScanStatus::BuildingGraph) => r == Ok::<bool, AppError>(true),
        Some(_) => r == Ok::<bool, AppError>(false),
    }
}

/// Decides what cancelling a scan in status `status` does.
pub fn cancel_outcome(scan_id: &str, status: Option<ScanStatus>) -> (r: Result<bool, AppError>)
    ensures
        cancel_outcome_spec(scan_id@, status, r),
{
    match status {
        None => Err(AppError::NotFound(scan_id.to_owned())),
        Some(ScanStatus::Scanning) | Some(ScanStatus::BuildingGraph) => Ok(true),
        Some(_) => Ok(false),
    }
}

/// Import persistence is degraded when more than half of the imports with
/// a source were lost: skipped for an empty source or refused by the store.
pub open spec fn degraded_spec(parsed: nat, skipped: nat, errors: nat) -> bool {
    let non_empty = if parsed >= skipped { parsed - skipped } else { 0 };
    non_empty > 0 && skipped + errors > non_empty / 2
}

/// Whether import persistence is degraded.
pub fn is_degraded(parsed: usize, skipped: usize, errors: usize) -> (r: bool)
    ensures
        r == degraded_spec(parsed as nat, skipped as nat, errors as nat),
{
    let non_empty = parsed.saturating_sub(skipped);
    let failures = (skipped as u128) + (errors as u128);
    non_empty > 0 && failures > (non_empty / 2) as u128
}

/// The message recorded for degraded import persistence.
pub open spec fn degraded_message(parsed: nat, skipped: nat, errors: nat, persisted: nat) -> Seq<char> {
    "Import persistence degraded: "@ + decimal(parsed) + " parsed, "@ + decimal(skipped) + " skipped (empty source), "@
        + decimal(errors) + " DB errors, "@ + decimal(persisted) + " persisted"@
}

/// The message recorded for degraded import persistence.
pub fn degraded_text(parsed: usize, skipped: usize, errors: usize, persisted: usize) -> (r: String)
    ensures
        r@ == degraded_message(parsed as nat, skipped as nat, errors as nat, persisted as nat),
{
    let mut r = String::new();
    append_str(&mut r, "Import persistence degraded: ");
    push_decimal(&mut r, parsed as u64);
    append_str(&mut r, " parsed, ");
    push_decimal(&mut r, skipped as u64);
    append_str(&mut r, " skipped (empty source), ");
    push_decimal(&mut r, errors as u64);
    append_str(&mut r, " DB errors, ");
    push_decimal(&mut r, persisted as u64);
    append_str(&mut r, " persisted");
    assert(r@ =~= degraded_message(parsed as nat, skipped as nat, errors as nat, persisted as nat));
    r
}

/// The error a failed save becomes: a root-path conflict means the project
/// exists at that path; anything else is a database error with the
/// failure's text.
pub open spec fn save_error_spec(failure: AppError, root_path: Seq<char>, r: AppError) -> bool {
    if has_substring(error_text(failure), root_path_conflict_text()) {
        r matches AppError::ProjectNotFound(p) && p@ == root_path
    } else {
        r matches AppError::Database(m) && m@ == error_text(failure)
    }
}

/// Maps a failure of the store while saving a scan.
pub fn save_error(failure: &AppError, root_path: &str) -> (r: AppError)
    ensures
        save_error_spec(*failure, root_path@, r),
{
    let text = failure.to_text();
    if is_root_path_conflict(text.as_str()) {
        AppError::ProjectNotFound(root_path.to_owned())
    } else {
        AppError::Database(text)
    }
}

/// The id of the file at relative path `path`: the last file recorded with
/// that path.
pub open spec fn id_for_path(files: Seq<FileInfo>, path: Seq<char>) -> Option<Seq<char>>
    decreases files.len(),
{
    if files.len() == 0 {
        None
    } else if files.last().path@ == path {
        Some(files.last().id@)
    } else {
        id_for_path(files.drop_last(), path)
    }
}

/// The relative path of the file with id `id`.
pub open spec fn path_for_id(files: Seq<FileInfo>, id: Seq<char>) -> Option<Seq<char>>
    decreases files.len(),
{
    if files.len() == 0 {
        None
    } else if files.last().id@ == id {
        Some(files.last().path@)
    } else {
        path_for_id(files.drop_last(), id)
    }
}

fn id_for_path_exec(files: &Vec<FileInfo>, path: &str) -> (r: Option<String>)
    ensures
        opt_str_view(r) == id_for_path(files@, path@),
{
    let mut k: usize = files.len();
    while k > 0
        invariant
            k <= files@.len(),
            id_for_path(files@, path@) == id_for_path(files@.take(k as int), path@),
        decreases k,
    {
        assert(files@.take(k as int).drop_last() =~= files@.take(k - 1));
        assert(files@.take(k as int).last() == files@[k - 1]);
        if str_eq(files[k - 1].path.as_str(), path) {
            return Some(files[k - 1].id.clone());
        }
        k = k - 1;
    }
    assert(files@.take(0) =~= Seq::<FileInfo>::empty());
    None
}

fn path_for_id_exec(files: &Vec<FileInfo>, id: &str) -> (r: Option<String>)
    ensures
        opt_str_view(r) == path_for_id(files@, id@),
{
    let mut k: usize = files.len();
    assert(files@.take(k as int) =~= files@);
    while k > 0
        invariant
            k <= files@.len(),
            path_for_id(files@, id@) == path_for_id(files@.take(k as int), id@),
        decreases k,
    {
        assert(files@.take(k as int).drop_last() =~= files@.take(k - 1));
        assert(files@.take(k as int).last() == files@[k - 1]);
        if str_eq(files[k - 1].id.as_str(), id) {
            return Some(files[k - 1].path.clone());
        }
        k = k - 1;
    }
    assert(files@.take(0) =~= Seq::<FileInfo>::empty());
    None
}

/// Views of an optional string.
pub open spec fn opt_str_view(o: Option<String>) -> Option<Seq<char>> {
    match o {
        Some(s) => Some(s@),
        None => None,
    }
}

/// The source an import is linked to: the id of the file at its source
/// path, or the source as it was.
pub open spec fn linked_source(files: Seq<FileInfo>, before: ImportInfo) -> Seq<char> {
    match id_for_path(files, before.source_file_id@) {
        Some(id) => id,
        None => before.source_file_id@,
    }
}

/// The path its module is resolved from: the path of the linked source
/// file, or the linked source itself.
pub open spec fn linked_from(files: Seq<FileInfo>, before: ImportInfo) -> Seq<char> {
    match path_for_id(files, linked_source(files, before)) {
        Some(p) => p,
        None => linked_source(files, before),
    }
}

/// How an import is linked to the project's files, for a project at
/// `root`: its source path becomes the source file's id; its module is
/// resolved from the source's path (`res`), and when it resolves to a
/// project path the target becomes the id of the file there (none if no
/// file has it); everything else is kept.
pub open spec fn linked_import(root: Seq<char>, files: Seq<FileInfo>, before: ImportInfo, after: ImportInfo, res: Resolution) -> bool {
    &&& after.id@ == before.id@
    &&& after.source_file_id@ == linked_source(files, before)
    &&& opt_str_view(after.target_module) == opt_str_view(before.target_module)
    &&& after.imports@.len() == before.imports@.len()
    &&& forall|q: int| 0 <= q < after.imports@.len() ==> (#[trigger] after.imports@[q])@ == before.imports@[q]@
    &&& after.is_default == before.is_default
    &&& after.is_type == before.is_type
    &&& match before.target_module {
        None => opt_str_view(after.target_file_id) == opt_str_view(before.target_file_id),
        Some(m) => {
            &&& resolution_ok(root, Seq::empty(), m@, linked_from(files, before), res)
            &&& match res {
                Resolution::Internal(p) => opt_str_view(after.target_file_id) == id_for_path(files, p@),
                _ => opt_str_view(after.target_file_id) == opt_str_view(before.target_file_id),
            }
        },
    }
}

/// `after` is `before` linked to the files for some resolution of its
/// module.
pub open spec fn is_linked(root: Seq<char>, files: Seq<FileInfo>, before: ImportInfo, after: ImportInfo) -> bool {
    exists|res: Resolution| #[trigger] linked_import(root, files, before, after, res)
}

/// Links the imports of a scan to its files.
pub fn link_imports(root: &str, files: &Vec<FileInfo>, imports: Vec<ImportInfo>) -> (r: Vec<ImportInfo>)
    ensures
        r@.len() == imports@.len(),
        forall|k: int| 0 <= k < r@.len() ==> is_linked(root@, files@, #[trigger] imports@[k], r@[k]),
{
    let resolver = PathResolver::new(root);
    proof {
        assert(resolver.alias_list() =~= Seq::<(String, String)>::empty());
    }
    let mut out: Vec<ImportInfo> = Vec::new();
    let mut k: usize = 0;
    while k < imports.len()
        invariant
            k <= imports@.len(),
            out@.len() == k,
            resolver.root_view() == root@,
            resolver.alias_list() == Seq::<(String, String)>::empty(),
            forall|q: int| 0 <= q < k ==> is_linked(root@, files@, #[trigger] imports@[q], out@[q]),
        decreases imports@.len() - k,
    {
        let imp = &imports[k];
        let source = match id_for_path_exec(files, imp.source_file_id.as_str()) {
            Some(id) => id,
            None => imp.source_file_id.clone(),
        };
        let mut target_file_id = imp.target_file_id.clone();
        let ghost mut res_g: Resolution = arbitrary();
        match &imp.target_module {
            Some(module) => {
                let rel = match path_for_id_exec(files, source.as_str()) {
                    Some(p) => p,
                    None => source.clone(),
                };
                let res = resolver.resolve(module.as_str(), rel.as_str());
                proof {
                    res_g = res;
                }
                match res {
                    Resolution::Internal(p) => {
                        target_file_id = id_for_path_exec(files, p.as_str());
                        proof {
                            if target_file_id.is_some() {
                                assert(id_for_path(files@, p@) == opt_str_view(target_file_id));
                            }
                        }
                    },
                    _ => {},
                }
            },
            None => {},
        }
        let mut names: Vec<String> = Vec::new();
        let mut j: usize = 0;
        while j < imp.imports.len()
            invariant
                j <= imp.imports@.len(),
                names@.len() == j,
                forall|q: int| 0 <= q < j ==> (#[trigger] names@[q])@ == imp.imports@[q]@,
            decreases imp.imports@.len() - j,
        {
            names.push(imp.imports[j].clone());
            j = j + 1;
        }
        let linked = ImportInfo {
            id: imp.id.clone(),
            source_file_id: source,
            target_file_id,
            target_module: match &imp.target_module {
                Some(m) => Some(m.clone()),
                None => None,
            },
            imports: names,
            is_default: imp.is_default,
            is_type: imp.is_type,
        };
        proof {
            assert(linked_import(root@, files@, imports@[k as int], linked, res_g));
        }
        let ghost out0 = out@;
        out.push(linked);
        proof {
            assert forall|q: int| 0 <= q < k + 1 implies is_linked(root@, files@, #[trigger] imports@[q], out@[q]) by {
                if q < k {
                    assert(out@[q] == out0[q]);
                } else {
                    assert(linked_import(root@, files@, imports@[q], out@[q], res_g));
                }
            }
        }
        k = k + 1;
    }
    out
}

/// Total number of symbols of the files.
pub open spec fn symbols_total(files: Seq<FileInfo>) -> nat
    decreases files.len(),
{
    if files.len() == 0 {
        0
    } else {
        symbols_total(files.drop_last()) + files.last().symbols@.len()
    }
}

/// The project name: the last `/`-separated segment of the root path.
pub open spec fn project_name_of(path: Seq<char>) -> Seq<char> {
    crate::commands::file_name_of(path)
}

/// `r` is the scan result of the stored project `meta` with `files`.
pub open spec fn opened_from(meta: ProjectMeta, files: Vec<FileInfo>, r: ScanResult) -> bool {
    &&& r.project_id == meta.project_id
    &&& r.project_name == meta.project_name
    &&& r.root_path == meta.root_path
    &&& r.files_count == meta.files_count
    &&& r.symbols_count == meta.symbols_count
    &&& r.imports_count == meta.imports_count
    &&& r.files == files
    &&& r.scan_duration_ms == meta.scan_duration_ms
    &&& r.status == meta.status
    &&& r.error == meta.error
}

/// What opening the project stored for `path` answers, given the store's
/// lookup (`pa`), the files of the project found (`fa`) and the updates of
/// the application status (`sa`) and root (`ra`): the first error met, not
/// found when nothing is stored for `path`, else the project with its
/// files.
pub open spec fn open_outcome(
    path: Seq<char>,
    pa: Result<Option<ProjectMeta>, AppError>,
    fa: Result<Vec<FileInfo>, AppError>,
    sa: Result<(), AppError>,
    ra: Result<(), AppError>,
    r: Result<ScanResult, AppError>,
) -> bool {
    match pa {
        Err(e) => r == Err::<ScanResult, AppError>(e),
        Ok(None) => (r matches Err(AppError::ProjectNotFound(p)) && p@ == path),
        Ok(Some(meta)) => match fa {
            Err(e) => r == Err::<ScanResult, AppError>(e),
            Ok(files) => match sa {
                Err(e) => r == Err::<ScanResult, AppError>(e),
                Ok(_) => match ra {
                    Err(e) => r == Err::<ScanResult, AppError>(e),
                    Ok(_) => (r matches Ok(res) && opened_from(meta, files, res)),
                },
            },
        },
    }
}

/// The scan result of a stored project: its metadata with its files.
pub fn opened_project(meta: ProjectMeta, files: Vec<FileInfo>) -> (r: ScanResult)
    ensures
        opened_from(meta, files, r),
{
    ScanResult {
        project_id: meta.project_id,
        project_name: meta.project_name,
        root_path: meta.root_path,
        files_count: meta.files_count,
        symbols_count: meta.symbols_count,
        imports_count: meta.imports_count,
        files,
        scan_duration_ms: meta.scan_duration_ms,
        status: meta.status,
        error: meta.error,
    }
}

/// What saving a scan answers, given the store's answer (`a`) and, when it
/// failed, the update of the application status to Error (`s`): success,
/// the status update's error, or the store's failure mapped for `path`.
pub open spec fn save_outcome(path: Seq<char>, a: Result<(), AppError>, s: Result<(), AppError>, r: Result<(), AppError>) -> bool {
    match a {
        Ok(_) => r == Ok::<(), AppError>(()),
        Err(e) => match s {
            Err(e2) => r == Err::<(), AppError>(e2),
            Ok(_) => (r matches Err(m) && save_error_spec(e, path, m)),
        },
    }
}

/// `res` is the scan result first saved for a scan of `path`: the scanned
/// files and their totals, no import persisted yet, status Ready.
pub open spec fn is_initial_result(res: ScanResult, project_id: Seq<char>, path: Seq<char>, output: ScanFilesOutput) -> bool {
    &&& res.project_id@ == project_id
    &&& res.root_path@ == path
    &&& res.project_name@ == project_name_of(path)
    &&& res.files@ == output.file_infos@
    &&& res.files_count == output.file_infos@.len()
    &&& res.symbols_count == symbols_total(output.file_infos@) as usize
    &&& res.imports_count == 0
    &&& res.scan_duration_ms == (output.discover_ms + output.parse_ms) % 0x1_0000_0000_0000_0000
    &&& res.status == ScanStatus::Ready
    &&& res.error is None
}

/// Imports skipped for an empty source (`None` in `answers`, one entry per
/// import).
pub open spec fn skipped_of(answers: Seq<Option<Result<(), AppError>>>) -> nat
    decreases answers.len(),
{
    if answers.len() == 0 {
        0
    } else {
        skipped_of(answers.drop_last()) + if answers.last() is None { 1nat } else { 0nat }
    }
}

/// Imports the store refused.
pub open spec fn refused_of(answers: Seq<Option<Result<(), AppError>>>) -> nat
    decreases answers.len(),
{
    if answers.len() == 0 {
        0
    } else {
        refused_of(answers.drop_last()) + if answers.last() matches Some(Err(_)) { 1nat } else { 0nat }
    }
}

/// Imports the store accepted.
pub open spec fn persisted_of(answers: Seq<Option<Result<(), AppError>>>) -> nat
    decreases answers.len(),
{
    if answers.len() == 0 {
        0
    } else {
        persisted_of(answers.drop_last()) + if answers.last() matches Some(Ok(_)) { 1nat } else { 0nat }
    }
}

/// `answers` records, for each of `imports` in order, nothing when its
/// source is empty (it is not saved) and otherwise the store's answer to
/// saving it.
pub open spec fn import_answers<S: ScanRepository>(store: S, imports: Seq<ImportInfo>, answers: Seq<Option<Result<(), AppError>>>) -> bool {
    &&& answers.len() == imports.len()
    &&& forall|k: int| 0 <= k < imports.len() ==> ((#[trigger] imports[k]).source_file_id@.len() == 0 <==> answers[k] is None)
    &&& forall|k: int| 0 <= k < imports.len() ==> (#[trigger] answers[k] matches Some(a) ==> store.gives_save_import(imports[k], a))
}

/// The use case of scanning projects.
pub struct ScanService<S, A> {
    scan_repo: S,
    state: A,
}

impl<S, A> ScanService<S, A> {
    /// A service over a scan store and the application state.
    pub fn new(scan_repo: S, state: A) -> (r: Self)
        ensures
            r.scan_store() == scan_repo,
            r.state_part() == state,
    {
        ScanService { scan_repo, state }
    }

    /// The scan store, as a spec value.
    pub closed spec fn scan_store(&self) -> S {
        self.scan_repo
    }

    /// The application state, as a spec value.
    pub closed spec fn state_part(&self) -> A {
        self.state
    }

    /// The application state.
    pub fn state(&self) -> (r: &A)
        ensures
            *r == self.state_part(),
    {
        &self.state
    }

    /// The scan store.
    pub fn scan_repo(&self) -> (r: &S)
        ensures
            *r == self.scan_store(),
    {
        &self.scan_repo
    }
}

impl<S: ScanRepository, A: AppStatePort> ScanService<S, A> {
    /// Cancels the scan `scan_id`: unknown scans are an error, running ones
    /// are told to stop (the store's answer), others are left alone.
    pub fn cancel(&self, scan_id: &str) -> (r: Result<(), AppError>)
        ensures
            exists|st: Result<Option<ScanStatus>, AppError>|
                #[trigger] self.scan_store().gives_scan_status(scan_id@, st) && match st {
                    Err(e) => r == Err::<(), AppError>(e),
                    Ok(None) => (r matches Err(AppError::NotFound(id)) && id@ == scan_id@),
                    Ok(Some(s)) => if s == ScanStatus::Scanning || s == ScanStatus::BuildingGraph {
                        self.scan_store().gives_cancel(scan_id@, r)
                    } else {
                        r == Ok::<(), AppError>(())
                    },
                },
    {
        let st = self.scan_repo.get_scan_status(scan_id);
        let ghost sg = st;
        proof {
            assert(self.scan_store().gives_scan_status(scan_id@, sg));
        }
        let status = match st {
            Ok(x) => x,
            Err(e) => return Err(e),
        };
        match cancel_outcome(scan_id, status) {
            Err(e) => Err(e),
            Ok(true) => self.scan_repo.cancel(scan_id),
            Ok(false) => Ok(()),
        }
    }

    /// The current scan status: the application state's answer.
    pub fn get_scan_status(&self) -> (r: Result<ScanStatus, AppError>)
        ensures
            self.state_part().gives_scan_status(r),
    {
        self.state.get_scan_status()
    }

    /// Opens the project stored for `path`: its files and metadata; the
    /// application status becomes Ready and its root `path`.
    pub fn open_project_by_path(&self, path: &str) -> (r: Result<ScanResult, AppError>)
        ensures
            exists|
                pa: Result<Option<ProjectMeta>, AppError>,
                fa: Result<Vec<FileInfo>, AppError>,
                sa: Result<(), AppError>,
                ra: Result<(), AppError>,
            |
                #[trigger] open_outcome(path@, pa, fa, sa, ra, r) && self.scan_store().gives_project_by_path(path@, pa) && (pa
                    matches Ok(Some(meta)) ==> self.scan_store().gives_files(meta.project_id@, fa) && (fa is Ok
                    ==> self.state_part().gives_set_scan_status(ScanStatus::Ready, sa) && (sa is Ok
                    ==> self.state_part().gives_set_project_root(path@, ra)))),
    {
        let pa = self.scan_repo.get_project_by_path(path);
        let ghost pg = pa;
        let ghost mut fg: Result<Vec<FileInfo>, AppError> = Err(AppError::AIRateLimited);
        let ghost mut sg: Result<(), AppError> = Ok(());
        let ghost mut rg: Result<(), AppError> = Ok(());
        let res: Result<ScanResult, AppError> = match pa {
            Err(e) => Err(e),
            Ok(None) => Err(AppError::ProjectNotFound(path.to_owned())),
            Ok(Some(meta)) => {
                let fa = self.scan_repo.get_files(meta.project_id.as_str());
                proof {
                    fg = fa;
                }
                match fa {
                    Err(e) => Err(e),
                    Ok(files) => {
                        let sa = self.state.set_scan_status(ScanStatus::Ready);
                        proof {
                            sg = sa;
                        }
                        match sa {
                            Err(e) => Err(e),
                            Ok(()) => {
                                let ra = self.state.set_project_root(path);
                                proof {
                                    rg = ra;
                                }
                                match ra {
                                    Err(e) => Err(e),
                                    Ok(()) => Ok(opened_project(meta, files)),
                                }
                            },
                        }
                    },
                }
            },
        };
        proof {
            assert(open_outcome(path@, pg, fg, sg, rg, res));
        }
        res
    }

    /// Saves a scan result; a failure marks the application status as
    /// errored and becomes the scan's error.
    fn save_or_fail(&self, result: &ScanResult, path: &str) -> (r: Result<(), AppError>)
        ensures
            exists|a: Result<(), AppError>, s: Result<(), AppError>|
                #[trigger] save_outcome(path@, a, s, r) && self.scan_store().gives_save_scan_result(*result, a) && (a is Err
                    ==> self.state_part().gives_set_scan_status(ScanStatus::Error, s)),
    {
        let a = self.scan_repo.save_scan_result(result);
        let ghost ag = a;
        let ghost mut sg: Result<(), AppError> = Ok(());
        let res: Result<(), AppError> = match a {
            Ok(()) => Ok(()),
            Err(e) => {
                let s = self.state.set_scan_status(ScanStatus::Error);
                proof {
                    sg = s;
                }
                match s {
                    Err(e2) => Err(e2),
                    Ok(()) => Err(save_error(&e, path)),
                }
            },
        };
        proof {
            assert(save_outcome(path@, ag, sg, res));
        }
        res
    }

    /// Persists a scan of the project at `path` from the scanned files:
    /// links the imports to the files, saves the project (status Ready),
    /// saves the imports that have a source and the non-empty outlines,
    /// then saves the project again with the number of imports persisted,
    /// marked as errored when import persistence is degraded. The
    /// application status goes through BuildingGraph to the final status,
    /// and the application root becomes `path`.
    pub fn finish_scan(
        &self,
        path: &str,
        project_id: String,
        output: ScanFilesOutput,
        discovered: &Vec<crate::commands::DiscoveredFile>,
    ) -> (r: Result<ScanResult, AppError>)
        ensures
            r matches Ok(res) ==> exists|linked: Seq<ImportInfo>, answers: Seq<Option<Result<(), AppError>>>|
                #![trigger persisted_of(answers), linked.len()]
                linked.len() == output.all_imports@.len() && (forall|k: int|
                    0 <= k < linked.len() ==> is_linked(path@, output.file_infos@, #[trigger] output.all_imports@[k], linked[k]))
                    && import_answers(self.scan_store(), linked, answers) && res.imports_count == persisted_of(answers) && (
                res.status == ScanStatus::Error <==> degraded_spec(linked.len() as nat, skipped_of(answers), refused_of(answers))),
            (forall|res: ScanResult, a: Result<(), AppError>| #[trigger] self.scan_store().gives_save_scan_result(res, a) ==> a is Ok)
                && (forall|s: ScanStatus, a: Result<(), AppError>| #[trigger] self.state_part().gives_set_scan_status(s, a) ==> a is Ok)
                && (forall|p: Seq<char>, a: Result<(), AppError>| #[trigger] self.state_part().gives_set_project_root(p, a) ==> a is Ok)
                ==> r is Ok,
            r matches Ok(res) ==> exists|first: ScanResult, a1: Result<(), AppError>, a2: Result<(), AppError>|
                is_initial_result(first, project_id@, path@, output) && #[trigger] self.scan_store().gives_save_scan_result(first, a1)
                    && a1 is Ok && #[trigger] self.scan_store().gives_save_scan_result(res, a2) && a2 is Ok,
            r matches Err(e) ==> exists|first: ScanResult, a: Result<(), AppError>|
                is_initial_result(first, project_id@, path@, output) && #[trigger] self.scan_store().gives_save_scan_result(first, a)
                    && (a is Err ==> exists|s: Result<(), AppError>| #[trigger] save_outcome(path@, a, s, Err(e))
                        && self.state_part().gives_set_scan_status(ScanStatus::Error, s)),
            r matches Ok(res) ==> {
                &&& res.files@ == output.file_infos@
                &&& res.project_id@ == project_id@
                &&& res.root_path@ == path@
                &&& res.project_name@ == project_name_of(path@)
                &&& res.files_count == output.file_infos@.len()
                &&& res.symbols_count == symbols_total(output.file_infos@) as usize
                &&& res.scan_duration_ms == (output.discover_ms + output.parse_ms) % 0x1_0000_0000_0000_0000
                &&& res.imports_count <= output.all_imports@.len()
                &&& self.state_part().gives_set_scan_status(res.status, Ok(()))
                &&& self.state_part().gives_set_project_root(path@, Ok(()))
                &&& (res.status == ScanStatus::Error <==> res.error is Some)
                &&& (res.status == ScanStatus::Ready || res.status == ScanStatus::Error)
            },
    {
        let ScanFilesOutput { file_infos, all_imports, outlines, discover_ms, parse_ms, .. } = output;
        let imports = link_imports(path, &file_infos, all_imports);
        let mut total: u128 = 0;
        let mut k: usize = 0;
        assert(file_infos@.take(0) =~= Seq::<FileInfo>::empty());
        while k < file_infos.len()
            invariant
                k <= file_infos@.len(),
                total == symbols_total(file_infos@.take(k as int)),
                total <= k * (usize::MAX as nat),
            decreases file_infos@.len() - k,
        {
            assert(file_infos@.take(k + 1).drop_last() =~= file_infos@.take(k as int));
            let l = file_infos[k].symbols.len();
            assert(total + l <= (k + 1) * (usize::MAX as nat)) by (nonlinear_arith)
                requires
                    total <= k * (usize::MAX as nat),
                    l <= usize::MAX,
            ;
            assert((k + 1) * (usize::MAX as nat) <= u128::MAX) by (nonlinear_arith)
                requires
                    k < usize::MAX,
                    usize::MAX <= u64::MAX,
            ;
            total = total + l as u128;
            k = k + 1;
        }
        assert(file_infos@.take(k as int) =~= file_infos@);
        let symbols_count = #[verifier::truncate] (total as usize);
        let files_count = file_infos.len();
        let mut result = ScanResult {
            project_id,
            project_name: crate::commands::file_name(path),
            root_path: path.to_owned(),
            files_count,
            symbols_count,
            imports_count: 0,
            files: file_infos,
            scan_duration_ms: discover_ms.wrapping_add(parse_ms),
            status: ScanStatus::Ready,
            error: None,
        };
        let ghost first = result;
        assert(is_initial_result(first, project_id@, path@, output));
        let first_saved = self.save_or_fail(&result, path);
        proof {
            if first_saved is Ok {
                let (a, s) = choose|a: Result<(), AppError>, s: Result<(), AppError>|
                    #[trigger] save_outcome(path@, a, s, first_saved) && self.scan_store().gives_save_scan_result(first, a) && (a is Err
                        ==> self.state_part().gives_set_scan_status(ScanStatus::Error, s));
                assert(a is Ok);
            }
        }
        first_saved?;
        let building = self.state.set_scan_status(ScanStatus::BuildingGraph);
        proof {
            assert(self.state_part().gives_set_scan_status(ScanStatus::BuildingGraph, building));
        }
        building?;
        let parsed = imports.len();
        let mut skipped: usize = 0;
        let mut errors: usize = 0;
        let mut persisted: usize = 0;
        let mut j: usize = 0;
        let ghost mut answers: Seq<Option<Result<(), AppError>>> = Seq::empty();
        while j < imports.len()
            invariant
                j <= imports@.len(),
                parsed == imports@.len(),
                skipped + errors + persisted == j,
                answers.len() == j,
                skipped == skipped_of(answers),
                errors == refused_of(answers),
                persisted == persisted_of(answers),
                forall|k: int| 0 <= k < j ==> ((#[trigger] imports@[k]).source_file_id@.len() == 0 <==> answers[k] is None),
                forall|k: int| 0 <= k < j ==> (#[trigger] answers[k] matches Some(a) ==> self.scan_store().gives_save_import(imports@[k], a)),
            decreases imports@.len() - j,
        {
            let imp = &imports[j];
            let ghost before = answers;
            if imp.source_file_id.as_str().is_empty() {
                skipped = skipped + 1;
                proof {
                    answers = answers.push(None);
                }
            } else {
                let a = self.scan_repo.save_import(imp);
                proof {
                    answers = answers.push(Some(a));
                    assert(self.scan_store().gives_save_import(imports@[j as int], a));
                }
                match a {
                    Ok(()) => {
                        persisted = persisted + 1;
                    },
                    Err(_) => {
                        errors = errors + 1;
                    },
                }
            }
            proof {
                assert(answers.drop_last() =~= before);
                assert forall|k: int| 0 <= k < j + 1 implies (#[trigger] answers[k] matches Some(a) ==> self.scan_store().gives_save_import(imports@[k], a)) by {
                    if k < j {
                        assert(answers[k] == before[k]);
                    }
                }
                assert forall|k: int| 0 <= k < j + 1 implies ((#[trigger] imports@[k]).source_file_id@.len() == 0 <==> answers[k] is None) by {
                    if k < j {
                        assert(answers[k] == before[k]);
                    }
                }
            }
            j = j + 1;
        }
        proof {
            assert(import_answers(self.scan_store(), imports@, answers));
        }
        let mut d: usize = 0;
        while d < discovered.len()
            invariant
                d <= discovered@.len(),
            decreases discovered@.len() - d,
        {
            let rel = discovered[d].relative_path.as_str();
            match id_for_path_exec(&result.files, rel) {
                Some(file_id) => {
                    match outline_for_path(&outlines, rel) {
                        Some(q) => {
                            if outlines[q].1.len() > 0 {
                                let _ = self.scan_repo.save_outline_items(file_id.as_str(), outlines[q].1.as_slice());
                            }
                        },
                        None => {},
                    }
                },
                None => {},
            }
            d = d + 1;
        }
        let degraded = is_degraded(parsed, skipped, errors);
        result.imports_count = persisted;
        if degraded {
            result.status = ScanStatus::Error;
            result.error = Some(degraded_text(parsed, skipped, errors, persisted));
        }
        let final_saved = self.save_or_fail(&result, path);
        proof {
            if final_saved is Ok {
                let (a, s) = choose|a: Result<(), AppError>, s: Result<(), AppError>|
                    #[trigger] save_outcome(path@, a, s, final_saved) && self.scan_store().gives_save_scan_result(result, a) && (a is Err
                        ==> self.state_part().gives_set_scan_status(ScanStatus::Error, s));
                assert(a is Ok);
            }
        }
        final_saved?;
        let final_status = if degraded { ScanStatus::Error } else { ScanStatus::Ready };
        let set_final = self.state.set_scan_status(final_status);
        proof {
            assert(self.state_part().gives_set_scan_status(final_status, set_final));
        }
        set_final?;
        let set_root = self.state.set_project_root(path);
        proof {
            assert(self.state_part().gives_set_project_root(path@, set_root));
        }
        set_root?;
        proof {
            assert(persisted_of(answers) == result.imports_count);
        }
        Ok(result)
    }
}

/// Index of the outline recorded last for `path`.
fn outline_for_path(outlines: &Vec<(String, Vec<OutlineItem>)>, path: &str) -> (r: Option<usize>)
    ensures
        r matches Some(q) ==> q < outlines@.len() && outlines@[q as int].0@ == path@ && forall|p: int|
            q < p < outlines@.len() ==> (#[trigger] outlines@[p]).0@ != path@,
        r is None ==> forall|p: int| 0 <= p < outlines@.len() ==> (#[trigger] outlines@[p]).0@ != path@,
{
    let mut k: usize = outlines.len();
    while k > 0
        invariant
            k <= outlines@.len(),
            forall|p: int| k <= p < outlines@.len() ==> (#[trigger] outlines@[p]).0@ != path@,
        decreases k,
    {
        if str_eq(outlines[k - 1].0.as_str(), path) {
            return Some(k - 1);
        }
        k = k - 1;
    }
    None
}

} // verus!
