use std::sync::Arc;

use engine::migrations::{pending_migrations, CURRENT_SCHEMA_VERSION};

use engine::errors::{is_root_path_conflict, map_save_scan_result_error, AppError, ErrorDetails};
use engine::models::{
    LexicalValueKind, OutlineItem, OutlineItemKind, ParseResult, Range, Reference, ReferenceKind, ScanStatus,
};
use engine::ports::{IdGenerator, MockIdGen, MockStopwatch, Stopwatch, SystemStopwatch};

#[test]
fn outline_item_stable_id_format() {
    let id = OutlineItem::stable_id("file-1", OutlineItemKind::Class, 10, 50, "UserService");
    assert!(id.starts_with("outline:file-1:Class:10:50:UserService"));
}

#[test]
fn outline_item_stable_id_is_exact() {
    let id = OutlineItem::stable_id("f", OutlineItemKind::Method, 3, 7, "run");
    assert_eq!(id, "outline:f:Method:3:7:run");
}

#[test]
fn parse_result_default_is_empty() {
    let result = ParseResult::default();
    assert!(result.symbols.is_empty());
    assert!(result.imports.is_empty());
    assert!(result.outline.is_empty());
}

#[test]
fn scan_status_default_is_idle() {
    assert_eq!(ScanStatus::default(), ScanStatus::Idle);
}

#[test]
fn parse_result_exposes_lexical_kind_and_references() {
    let result = ParseResult {
        symbols: vec![],
        imports: vec![],
        outline: vec![],
        lexical_kind: LexicalValueKind::ArrowFunction,
        references: vec![Reference {
            file_id: "file-1".into(),
            kind: ReferenceKind::Export,
            target_name: "Component".into(),
            range: Range { start_byte: 0, end_byte: 10, start_line: 1, start_col: 0, end_line: 1, end_col: 10 },
        }],
    };
    assert_eq!(result.lexical_kind, LexicalValueKind::ArrowFunction);
    assert_eq!(result.references.len(), 1);
    assert_eq!(result.references[0].target_name, "Component");
}

#[test]
fn parse_result_default_has_empty_references_and_const_lexical_kind() {
    let result = ParseResult::default();
    assert!(result.references.is_empty(), "references default must be empty");
    assert_eq!(result.lexical_kind, LexicalValueKind::Const, "default lexical_kind must be Const");
}

// ── Errors ──────────────────────────────────────────────────────────────────

#[test]
fn map_save_scan_result_error_passes_through_non_conflict() {
    let err = "Connection refused";
    let root_path = "/some/path";
    let result = map_save_scan_result_error(err, root_path, "p-id-123");
    assert_eq!(result, "Connection refused");
}

#[test]
fn map_save_scan_result_error_maps_root_path_conflict() {
    let err = "UNIQUE constraint failed: projects.root_path";
    let root_path = "/home/user/my-project";
    let result = map_save_scan_result_error(err, root_path, "proj-abc");
    assert!(result.contains("Project already exists"));
    assert!(result.contains("/home/user/my-project"));
    assert!(!result.contains("UNIQUE constraint"));
    assert!(!result.contains("rusqlite"));
}

#[test]
fn is_root_path_conflict_true_for_root_path() {
    let err = "UNIQUE constraint failed: projects.root_path";
    assert!(is_root_path_conflict(err));
}

#[test]
fn is_root_path_conflict_false_for_other_constraints() {
    let err_files = "UNIQUE constraint failed: files.id";
    let err_imports = "UNIQUE constraint failed: imports.source_file_id";
    let err_other = "UNIQUE constraint failed: some_table.other_column";
    assert!(!is_root_path_conflict(err_files));
    assert!(!is_root_path_conflict(err_imports));
    assert!(!is_root_path_conflict(err_other));
}

#[test]
fn is_root_path_conflict_false_for_non_constraint_errors() {
    let err = "Connection refused";
    let err_io = "No such file or directory";
    let err_generic = "something went wrong";
    assert!(!is_root_path_conflict(err));
    assert!(!is_root_path_conflict(err_io));
    assert!(!is_root_path_conflict(err_generic));
}

#[test]
fn is_root_path_conflict_case_sensitive() {
    let err_lower = "unique constraint failed: projects.root_path";
    assert!(!is_root_path_conflict(err_lower));
}

#[test]
fn map_save_scan_result_error_empty_root_path() {
    let err = "UNIQUE constraint failed: projects.root_path";
    let root_path = "";
    let result = map_save_scan_result_error(err, root_path, "proj-xyz");
    assert!(result.contains("Project already exists"));
    assert!(result.contains("path"));
    assert!(!result.contains("UNIQUE constraint"));
}

#[test]
fn app_error_text_and_wire_form() {
    let e = AppError::ScanTimeout { files_processed: 3, total_files: 10 };
    assert_eq!(e.to_text(), "Scan timeout: processed 3/10 files");
    assert_eq!(e.ipc_code(), "SCAN_TIMEOUT");
    assert!(matches!(e.ipc_details(), Some(ErrorDetails::Progress { .. })));
    let nf = AppError::ProjectNotFound("p".into());
    assert_eq!(nf.to_text(), "Project not found: p");
    assert_eq!(nf.ipc_code(), "PROJECT_NOT_FOUND");
    assert_eq!(AppError::InvalidApiKey.ipc_code(), "INVALID_API_KEY");
    assert_eq!(AppError::Internal("x".into()).to_text(), "Internal error: x");
}

// ── Id generators and stopwatches ───────────────────────────────────────────

#[test]
fn mock_id_gen_call_0_returns_nil() {
    let mut id_gen = MockIdGen::new();
    assert_eq!(id_gen.next_id(), "00000000-0000-0000-0000-000000000000");
}

#[test]
fn mock_id_gen_call_1_returns_non_nil() {
    let mut id_gen = MockIdGen::new();
    let _ = id_gen.next_id();
    let id = id_gen.next_id();
    assert_ne!(id, "00000000-0000-0000-0000-000000000000");
    assert_eq!(id, "00000000-0000-0001-0000-000000000000");
}

#[test]
fn mock_id_gen_sequential_calls_return_different_ids() {
    let mut id_gen = MockIdGen::new();
    let _ = id_gen.next_id();
    let id1 = id_gen.next_id();
    let id2 = id_gen.next_id();
    let id3 = id_gen.next_id();
    assert_ne!(id1, id2);
    assert_ne!(id2, id3);
    assert_ne!(id1, id3);
}

#[test]
fn mock_id_gen_counter_increments() {
    let mut id_gen = MockIdGen::new();
    assert_eq!(id_gen.counter(), 0);
    let _ = id_gen.next_id();
    assert_eq!(id_gen.counter(), 1);
    let _ = id_gen.next_id();
    assert_eq!(id_gen.counter(), 2);
}

#[test]
fn mock_id_gen_advance_by() {
    let mut id_gen = MockIdGen::new();
    id_gen.advance_by(5);
    assert_eq!(id_gen.counter(), 5);
    let id = id_gen.next_id();
    assert_eq!(id, "00000000-0000-0005-0000-000000000000");
    assert_eq!(id_gen.counter(), 6);
}

#[test]
fn mock_stopwatch_returns_fixed_elapsed() {
    let sw = MockStopwatch::with_elapsed_ms(123);
    let h = sw.start();
    assert_eq!(sw.elapsed_ms(&h), 123);
}

#[test]
fn mock_stopwatch_set_elapsed_ms_changes_returned_value() {
    let mut sw = MockStopwatch::new();
    let h = sw.start();
    assert_eq!(sw.elapsed_ms(&h), 0);
    sw.set_elapsed_ms(99);
    assert_eq!(sw.elapsed_ms(&h), 99);
}

#[test]
fn mock_stopwatch_all_handles_share_same_elapsed() {
    let mut sw = MockStopwatch::with_elapsed_ms(50);
    let h1 = sw.start();
    let h2 = sw.start();
    sw.set_elapsed_ms(75);
    assert_eq!(sw.elapsed_ms(&h1), 75);
    assert_eq!(sw.elapsed_ms(&h2), 75);
}

fn assert_stopwatch<S: Stopwatch + ?Sized>(_: &S) {}

#[test]
fn arc_dyn_stopwatch_satisfies_stopwatch_bound() {
    let sw: Arc<dyn Stopwatch> = Arc::new(SystemStopwatch);
    assert_stopwatch(&*sw);
}

#[test]
fn pending_migrations_run_from_the_stored_version_up() {
    assert_eq!(pending_migrations(0), vec![1, 2, 3]);
    assert_eq!(pending_migrations(1), vec![2, 3]);
    assert!(pending_migrations(CURRENT_SCHEMA_VERSION).is_empty());
    assert!(pending_migrations(7).is_empty());
}
