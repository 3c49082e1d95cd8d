use std::sync::Mutex;

use engine::architecture::{classify_architecture, ArchitecturePattern};
use engine::commands::{scan_sources, DiscoveredFile};
use engine::cycles::{detect_cycles, NoDeadline};
use engine::errors::AppError;
use engine::hotspots::{coupling_degree, detect_hotspots};
use engine::impact::{impact_explanation, traverse_dependents, ImpactConfig};
use engine::models::{
    AIConfig, C4View, FileInfo, FileMeta, ImportInfo, NodeRef, OutlineItem, ProjectMeta, ScanResult, ScanStatus,
};
use engine::ports::{AppStatePort, Clock, ScanRepository};
use engine::registry::ParserRegistry;
use engine::scan_service::{cancel_outcome, degraded_text, is_degraded, opened_project, ScanService};
use engine::services::{neighbours_answer, node_details_answer, AnalysisService};
use engine::snapshots::{c4_view_from, diff_snapshots, set_difference, SnapshotNode, SnapshotSets};

// ── Architecture ────────────────────────────────────────────────────────────

fn metas(files: &[(&str, &str)]) -> Vec<FileMeta> {
    files
        .iter()
        .map(|(id, path)| FileMeta {
            id: id.to_string(),
            path: path.to_string(),
            name: id.to_string(),
            extension: "ts".to_string(),
            lines: 0,
        })
        .collect()
}

#[test]
fn mvc_project_returns_mvc_pattern_with_positive_confidence() {
    let files = metas(&[
        ("f1", "src/models/User.ts"),
        ("f2", "src/views/Home.tsx"),
        ("f3", "src/controllers/UserController.ts"),
        ("f4", "src/routes.ts"),
    ]);
    let result = classify_architecture(&files);
    assert_eq!(result.pattern, ArchitecturePattern::Mvc);
    assert!(result.score_tenths > 0);
    assert_eq!(result.score_tenths, 30);
}

#[test]
fn clean_architecture_project_returns_clean() {
    let files = metas(&[
        ("f1", "src/domain/entities/User.ts"),
        ("f2", "src/application/UseCase.ts"),
        ("f3", "src/infrastructure/Database.ts"),
        ("f4", "src/presentation/Controller.ts"),
    ]);
    let result = classify_architecture(&files);
    assert_eq!(result.pattern, ArchitecturePattern::Clean);
    assert!(result.score_tenths > 0);
}

#[test]
fn neutral_paths_return_unknown() {
    let files = metas(&[("f1", "src/index.ts"), ("f2", "src/utils.ts"), ("f3", "src/app.ts")]);
    let result = classify_architecture(&files);
    assert_eq!(result.pattern, ArchitecturePattern::Unknown);
}

#[test]
fn empty_file_list_returns_unknown_without_crash() {
    let result = classify_architecture(&vec![]);
    assert_eq!(result.pattern, ArchitecturePattern::Unknown);
    assert_eq!(result.score_tenths, 0);
    assert!(result.evidence.is_none());
}

#[test]
fn evidence_contains_matching_nodes_and_reasons() {
    let files = metas(&[
        ("f1", "src/domain/User.ts"),
        ("f2", "src/application/Service.ts"),
        ("f3", "src/infrastructure/Repo.ts"),
    ]);
    let result = classify_architecture(&files);
    let ev = result.evidence.as_ref().expect("evidence");
    assert!(!ev.nodes.is_empty());
    assert!(ev.reasons.len() >= 2);
    assert_eq!(ev.nodes, vec!["f1", "f2", "f3"]);
}

#[test]
fn hexagonal_weights_win_over_single_layer() {
    let files = metas(&[("a", "src/ports/In.ts"), ("b", "src/services/S.ts")]);
    let result = classify_architecture(&files);
    assert_eq!(result.pattern, ArchitecturePattern::Hexagonal);
    assert_eq!(result.score_tenths, 15);
    assert_eq!(ArchitecturePattern::Hexagonal.as_str(), "hexagonal");
}

// ── Cycles, hotspots, impact ────────────────────────────────────────────────

fn pairs(v: &[(&str, &str)]) -> Vec<(String, String)> {
    v.iter().map(|(a, b)| (a.to_string(), b.to_string())).collect()
}

#[test]
fn cycle_detection_finds_simple_cycle() {
    let nodes = pairs(&[("file-0", "src/A.ts"), ("file-1", "src/B.ts")]);
    let edges = pairs(&[("file-0", "file-1"), ("file-1", "file-0")]);
    let cycles = detect_cycles(&nodes, &edges, &NoDeadline);
    assert_eq!(cycles.len(), 1);
    assert_eq!(cycles[0].length, 2);
    let mut members = cycles[0].nodes.clone();
    members.sort();
    assert_eq!(members, vec!["file-0", "file-1"]);
}

#[test]
fn cycle_detection_reports_only_the_strong_component() {
    let nodes = pairs(&[("a", "a"), ("b", "b"), ("c", "c"), ("d", "d"), ("e", "e")]);
    let edges = pairs(&[("d", "a"), ("a", "b"), ("b", "c"), ("c", "a"), ("c", "e"), ("e", "e")]);
    let cycles = detect_cycles(&nodes, &edges, &NoDeadline);
    assert_eq!(cycles.len(), 1);
    let mut members = cycles[0].nodes.clone();
    members.sort();
    assert_eq!(members, vec!["a", "b", "c"]);
}

#[test]
fn every_component_of_a_listed_node_is_reported() {
    // `x` and `y` appear only in edges; they close cycles with listed nodes.
    let nodes = pairs(&[("a", "a"), ("p", "p")]);
    let edges = pairs(&[("a", "x"), ("x", "a"), ("p", "q"), ("q", "y"), ("y", "p"), ("a", "p")]);
    let cycles = detect_cycles(&nodes, &edges, &NoDeadline);
    assert_eq!(cycles.len(), 2);
    let mut found: Vec<Vec<String>> = cycles
        .iter()
        .map(|c| {
            let mut m = c.nodes.clone();
            m.sort();
            m
        })
        .collect();
    found.sort();
    assert_eq!(found, vec![vec!["a".to_string(), "x".to_string()], vec!["p".to_string(), "q".to_string(), "y".to_string()]]);
}

#[test]
fn a_component_reached_from_a_listed_node_is_reported() {
    // Only `a` is listed; the cycle `m`-`n` lies behind it.
    let nodes = pairs(&[("a", "a")]);
    let edges = pairs(&[("a", "m"), ("m", "n"), ("n", "m")]);
    let cycles = detect_cycles(&nodes, &edges, &NoDeadline);
    assert_eq!(cycles.len(), 1);
    let mut members = cycles[0].nodes.clone();
    members.sort();
    assert_eq!(members, vec!["m", "n"]);
}

#[test]
fn acyclic_graph_has_no_cycles() {
    let nodes = pairs(&[("a", "a"), ("b", "b"), ("c", "c")]);
    let edges = pairs(&[("a", "b"), ("b", "c")]);
    assert!(detect_cycles(&nodes, &edges, &NoDeadline).is_empty());
}

#[test]
fn empty_graph_returns_zero_metrics() {
    let cycles = detect_cycles(&vec![], &vec![], &NoDeadline);
    assert!(cycles.is_empty());
    assert!(detect_hotspots(&vec![], &vec![], 1).is_empty());
}

#[test]
fn hotspot_detection_returns_top_coupled_nodes() {
    let nodes = pairs(&[("file-0", "src/Hub.ts"), ("file-1", "src/A.ts"), ("file-2", "src/B.ts"), ("file-3", "src/C.ts")]);
    let edges = pairs(&[("file-1", "file-0"), ("file-2", "file-0"), ("file-3", "file-0")]);
    let hs = detect_hotspots(&nodes, &edges, 1);
    assert_eq!(hs.len(), 1);
    assert_eq!(hs[0].node_id, "file-0");
    assert_eq!(hs[0].degree, 3);
    assert_eq!(hs[0].reason, "Acoplamiento moderado: 3 conexiones");
    assert_eq!(coupling_degree(&edges, &"file-1".to_string()), 1);
}

fn imports(v: &[(&str, Option<&str>)]) -> Vec<(String, Option<String>)> {
    v.iter().map(|(s, t)| (s.to_string(), t.map(|x| x.to_string()))).collect()
}

#[test]
fn linear_graph_impact_affects_downstream_chain() {
    let imps = imports(&[("file-b", Some("file-a")), ("file-c", Some("file-b"))]);
    let t = traverse_dependents(&imps, "file-a", ImpactConfig::default().max_depth);
    assert_eq!(t.affected.len(), 2);
    assert!(t.affected.contains(&"file-b".to_string()));
    assert!(t.affected.contains(&"file-c".to_string()));
    assert_eq!(t.depths, vec![1, 2]);
}

#[test]
fn isolated_node_returns_empty_affected() {
    let t = traverse_dependents(&vec![], "file-d", 10);
    assert!(t.affected.is_empty());
}

#[test]
fn impact_explanation_lists_levels_in_order() {
    assert_eq!(
        impact_explanation("file-a", &vec![1, 2]),
        "El cambio en 'file-a' afecta 2 archivo(s) en 2 niveles. Distribución: 1 archivo(s) a 1 nivel(es), 1 archivo(s) a 2 nivel(es)."
    );
    assert_eq!(
        impact_explanation("x", &vec![1, 1, 2]),
        "El cambio en 'x' afecta 3 archivo(s) en 2 niveles. Distribución: 1 archivo(s) a 2 nivel(es), 2 archivo(s) a 1 nivel(es)."
    );
    assert_eq!(
        impact_explanation("file-d", &vec![]),
        "El archivo 'file-d' no tiene dependencias dependientes en el grafo de imports."
    );
}

#[test]
fn impact_stops_at_max_depth() {
    let imps = imports(&[("b", Some("a")), ("c", Some("b")), ("d", Some("c"))]);
    let t = traverse_dependents(&imps, "a", 2);
    assert_eq!(t.affected, vec!["b", "c"]);
    let none = traverse_dependents(&imps, "a", 0);
    assert!(none.affected.is_empty());
}

#[test]
fn impact_reaches_each_file_at_its_shortest_distance() {
    // `y` imports `a` directly and through `x`; `z` imports `y`.
    let imps = imports(&[("y", Some("a")), ("x", Some("a")), ("y", Some("x")), ("z", Some("y"))]);
    let t = traverse_dependents(&imps, "a", 2);
    assert_eq!(t.affected, vec!["y", "x", "z"]);
    assert_eq!(t.depths, vec![1, 1, 2]);
}

#[test]
fn impact_in_a_cycle_does_not_report_the_start() {
    let imps = imports(&[("b", Some("a")), ("a", Some("b"))]);
    let t = traverse_dependents(&imps, "a", 10);
    assert_eq!(t.affected, vec!["b"]);
}

// ── Snapshots and C4 views ──────────────────────────────────────────────────

fn snap(label: &str, path: &str, node_type: &str) -> SnapshotNode {
    SnapshotNode { id: label.into(), label: label.into(), path: path.into(), node_type: node_type.into() }
}

#[test]
fn c4_view_invalid_level_returns_error() {
    assert_eq!(c4_view_from(3, None).unwrap_err(), "level must be 1 or 2");
}

#[test]
fn c4_view_level_1_no_data_returns_warning() {
    let v: C4View = c4_view_from(1, None).unwrap();
    assert_eq!(v.level, 1);
    assert_eq!(v.systems, Some(vec!["CodeAtlas Application".to_string()]));
    assert!(v.containers.is_none());
    assert!(v.warning.is_some());
}

#[test]
fn c4_view_level_2_no_data_returns_warning() {
    let v = c4_view_from(2, None).unwrap();
    assert_eq!(v.containers, Some(vec!["No snapshot data available".to_string()]));
    assert!(v.systems.is_none());
    assert!(v.warning.is_some());
}

#[test]
fn c4_view_levels_from_snapshot_nodes() {
    let nodes = vec![
        snap("UserService", "src/services/user.ts", "service"),
        snap("Button", "src/components/Button.tsx", "component"),
        snap("UserRepo", "src/repositories/user.ts", "repository"),
        snap("main", "main.ts", "unknown"),
    ];
    let l1 = c4_view_from(1, Some(&nodes)).unwrap();
    assert_eq!(l1.systems, Some(vec!["UserService".to_string(), "UserRepo".to_string()]));
    assert!(l1.warning.is_none());
    let l2 = c4_view_from(2, Some(&nodes)).unwrap();
    assert_eq!(
        l2.containers,
        Some(vec!["services/user.ts".to_string(), "components/Button.tsx".to_string(), "repositories/user.ts".to_string()])
    );
    let only_root = vec![snap("main", "main.ts", "unknown")];
    let empty = c4_view_from(2, Some(&only_root)).unwrap();
    assert_eq!(empty.containers, Some(vec!["No container data available".to_string()]));
    let placeholder = c4_view_from(1, Some(&only_root)).unwrap();
    assert_eq!(placeholder.systems, Some(vec!["CodeAtlas Application".to_string()]));
    assert!(placeholder.warning.is_some());
}

#[test]
fn snapshot_diff_same_snapshot_zero_delta() {
    let a = vec!["x".to_string(), "y".to_string()];
    assert!(set_difference(&a, &a).is_empty());
    let b = vec!["y".to_string(), "z".to_string(), "z".to_string()];
    assert_eq!(set_difference(&b, &a), vec!["z"]);
    assert_eq!(set_difference(&a, &b), vec!["x"]);
}

fn sets(nodes: &[&str], edges: &[&str]) -> SnapshotSets {
    SnapshotSets {
        node_ids: nodes.iter().map(|s| s.to_string()).collect(),
        edges: edges.iter().map(|s| s.to_string()).collect(),
    }
}

#[test]
fn snapshot_diff_lists_added_and_removed() {
    let base = sets(&["a", "b"], &["a->b"]);
    let target = sets(&["b", "c"], &["b->c", "a->b"]);
    let d = diff_snapshots(Some(base.clone()), Some(target.clone()));
    assert_eq!(d.nodes_added, vec!["c"]);
    assert_eq!(d.nodes_removed, vec!["a"]);
    assert_eq!(d.edges_added, vec!["b->c"]);
    assert!(d.edges_removed.is_empty());
    let same = diff_snapshots(Some(base.clone()), Some(base.clone()));
    assert!(same.nodes_added.is_empty() && same.nodes_removed.is_empty());
    assert!(same.edges_added.is_empty() && same.edges_removed.is_empty());
}

#[test]
fn snapshot_diff_with_unknown_snapshot_is_empty() {
    let d = diff_snapshots(None, Some(sets(&["a"], &["a->a"])));
    assert!(d.nodes_added.is_empty() && d.nodes_removed.is_empty());
    assert!(d.edges_added.is_empty() && d.edges_removed.is_empty());
}

// ── Scan service ────────────────────────────────────────────────────────────

#[derive(Default)]
struct MemState {
    status: Mutex<ScanStatus>,
    root: Mutex<String>,
    config: Mutex<Option<AIConfig>>,
}

impl AppStatePort for MemState {
    fn get_scan_status(&self) -> Result<ScanStatus, AppError> {
        Ok(*self.status.lock().unwrap())
    }
    fn set_scan_status(&self, status: ScanStatus) -> Result<(), AppError> {
        *self.status.lock().unwrap() = status;
        Ok(())
    }
    fn get_ai_config(&self) -> Result<Option<AIConfig>, AppError> {
        Ok(self.config.lock().unwrap().clone())
    }
    fn set_ai_config(&self, config: AIConfig) -> Result<(), AppError> {
        *self.config.lock().unwrap() = Some(config);
        Ok(())
    }
    fn get_project_root(&self) -> Result<String, AppError> {
        Ok(self.root.lock().unwrap().clone())
    }
    fn set_project_root(&self, path: &str) -> Result<(), AppError> {
        *self.root.lock().unwrap() = path.to_string();
        Ok(())
    }
}

#[derive(Default)]
struct MemRepo {
    saved: Mutex<Vec<ScanResult>>,
    imports: Mutex<Vec<ImportInfo>>,
    outlines: Mutex<Vec<String>>,
}

impl ScanRepository for MemRepo {
    fn save_scan_result(&self, result: &ScanResult) -> Result<(), AppError> {
        self.saved.lock().unwrap().push(result.clone());
        Ok(())
    }
    fn get_project_by_path(&self, root_path: &str) -> Result<Option<ProjectMeta>, AppError> {
        Ok(self.saved.lock().unwrap().iter().rev().find(|r| r.root_path == root_path).map(|r| ProjectMeta {
            project_id: r.project_id.clone(),
            project_name: r.project_name.clone(),
            root_path: r.root_path.clone(),
            files_count: r.files_count,
            symbols_count: r.symbols_count,
            imports_count: r.imports_count,
            scan_duration_ms: r.scan_duration_ms,
            status: r.status,
            error: r.error.clone(),
        }))
    }
    fn get_project(&self, _project_id: &str) -> Result<Option<(String, String, i64)>, AppError> {
        Ok(None)
    }
    fn get_files(&self, project_id: &str) -> Result<Vec<FileInfo>, AppError> {
        Ok(self.saved.lock().unwrap().iter().rev().find(|r| r.project_id == project_id).map(|r| r.files.clone()).unwrap_or_default())
    }
    fn get_imports(&self, _project_id: &str) -> Result<Vec<ImportInfo>, AppError> {
        Ok(self.imports.lock().unwrap().clone())
    }
    fn save_import(&self, import: &ImportInfo) -> Result<(), AppError> {
        self.imports.lock().unwrap().push(import.clone());
        Ok(())
    }
    fn get_file_by_id(&self, _file_id: &str) -> Result<Option<FileInfo>, AppError> {
        Ok(None)
    }
    fn save_outline_items(&self, file_id: &str, _items: &[OutlineItem]) -> Result<(), AppError> {
        self.outlines.lock().unwrap().push(file_id.to_string());
        Ok(())
    }
    fn get_outline_items(&self, _file_id: &str) -> Result<Vec<OutlineItem>, AppError> {
        Ok(vec![])
    }
    fn get_scan_status(&self, _project_id: &str) -> Result<Option<ScanStatus>, AppError> {
        Ok(None)
    }
    fn cancel(&self, _project_id: &str) -> Result<(), AppError> {
        Ok(())
    }
}

fn scan(service: &ScanService<MemRepo, MemState>, root: &str, files: Vec<(&str, &str)>) -> ScanResult {
    let discovered: Vec<DiscoveredFile> = files
        .iter()
        .map(|(rel, _)| DiscoveredFile {
            path: format!("{}/{}", root, rel),
            relative_path: rel.to_string(),
            extension: rel.rsplit('.').next().unwrap().to_string(),
            size_bytes: 10,
        })
        .collect();
    let sources = files.iter().map(|(_, src)| Some(src.to_string())).collect();
    let registry = ParserRegistry::new();
    let output = scan_sources(&registry, &discovered, sources);
    service.finish_scan(root, "proj-1".to_string(), output, &discovered).unwrap()
}

#[test]
fn scan_project_transitions_status_through_scanning_and_building_graph() {
    let service = ScanService::new(MemRepo::default(), MemState::default());
    let r = scan(&service, "/tmp/proj", vec![("index.ts", "export const x = 1;")]);
    assert_eq!(r.status, ScanStatus::Ready);
    assert_eq!(r.files_count, 1);
    assert_eq!(r.project_name, "proj");
    assert_eq!(service.state().get_scan_status().unwrap(), ScanStatus::Ready);
}

#[test]
fn scan_project_sets_project_root() {
    let service = ScanService::new(MemRepo::default(), MemState::default());
    let _ = scan(&service, "/tmp/rooted", vec![("main.ts", "const x = 1;")]);
    assert_eq!(service.state().get_project_root().unwrap(), "/tmp/rooted");
}

#[test]
fn scan_project_links_and_persists_imports_and_outlines() {
    let service = ScanService::new(MemRepo::default(), MemState::default());
    let r = scan(
        &service,
        "/tmp/linked",
        vec![("a.ts", "import { b } from './b';\nexport function a() {}\n"), ("b.ts", "export const b = 1;\n")],
    );
    assert_eq!(r.imports_count, 1);
    assert_eq!(r.status, ScanStatus::Ready);
    assert!(r.error.is_none());
    assert!(!service.scan_repo().outlines.lock().unwrap().is_empty());
}

#[test]
fn open_project_by_path_loads_and_sets_state() {
    let service = ScanService::new(MemRepo::default(), MemState::default());
    let r = scan(&service, "/tmp/reopen", vec![("test.ts", "export const y = 2;")]);
    service.state().set_scan_status(ScanStatus::Idle).unwrap();
    service.state().set_project_root("").unwrap();
    let reopened = service.open_project_by_path("/tmp/reopen").unwrap();
    assert_eq!(reopened.project_id, r.project_id);
    assert_eq!(reopened.files_count, 1);
    assert_eq!(service.state().get_scan_status().unwrap(), ScanStatus::Ready);
    assert_eq!(service.state().get_project_root().unwrap(), "/tmp/reopen");
}

#[test]
fn open_project_by_path_not_found() {
    let service = ScanService::new(MemRepo::default(), MemState::default());
    let result = service.open_project_by_path("/nonexistent/path");
    assert!(matches!(result.unwrap_err(), AppError::ProjectNotFound(_)));
}

struct NoOpScanRepo;

impl ScanRepository for NoOpScanRepo {
    fn save_scan_result(&self, _result: &ScanResult) -> Result<(), AppError> {
        unreachable!()
    }
    fn get_project_by_path(&self, _root_path: &str) -> Result<Option<ProjectMeta>, AppError> {
        unreachable!()
    }
    fn get_project(&self, _project_id: &str) -> Result<Option<(String, String, i64)>, AppError> {
        unreachable!()
    }
    fn get_files(&self, _project_id: &str) -> Result<Vec<FileInfo>, AppError> {
        unreachable!()
    }
    fn get_imports(&self, _project_id: &str) -> Result<Vec<ImportInfo>, AppError> {
        unreachable!()
    }
    fn save_import(&self, _import: &ImportInfo) -> Result<(), AppError> {
        unreachable!()
    }
    fn get_file_by_id(&self, _file_id: &str) -> Result<Option<FileInfo>, AppError> {
        unreachable!()
    }
    fn save_outline_items(&self, _file_id: &str, _items: &[OutlineItem]) -> Result<(), AppError> {
        unreachable!()
    }
    fn get_outline_items(&self, _file_id: &str) -> Result<Vec<OutlineItem>, AppError> {
        unreachable!()
    }
    fn get_scan_status(&self, _project_id: &str) -> Result<Option<ScanStatus>, AppError> {
        unreachable!()
    }
    fn cancel(&self, _project_id: &str) -> Result<(), AppError> {
        unreachable!()
    }
}

#[test]
fn get_scan_status_returns_current() {
    let state = MemState::default();
    state.set_scan_status(ScanStatus::Scanning).unwrap();
    state.set_project_root("/some/path").unwrap();
    let service = ScanService::new(NoOpScanRepo, state);
    assert_eq!(service.get_scan_status().unwrap(), ScanStatus::Scanning);
}

#[test]
fn cancel_decisions() {
    assert_eq!(cancel_outcome("s1", None).unwrap_err(), AppError::NotFound("s1".to_string()));
    assert_eq!(cancel_outcome("s1", Some(ScanStatus::Scanning)).unwrap(), true);
    assert_eq!(cancel_outcome("s1", Some(ScanStatus::BuildingGraph)).unwrap(), true);
    assert_eq!(cancel_outcome("s1", Some(ScanStatus::Ready)).unwrap(), false);
}

#[test]
fn degraded_import_persistence() {
    assert!(!is_degraded(0, 0, 0));
    assert!(is_degraded(10, 2, 3));
    assert!(!is_degraded(10, 0, 5));
    assert_eq!(
        degraded_text(10, 2, 3, 5),
        "Import persistence degraded: 10 parsed, 2 skipped (empty source), 3 DB errors, 5 persisted"
    );
}

// ── Analysis service ────────────────────────────────────────────────────────

struct FixedClock;

impl Clock for FixedClock {
    fn now(&self) -> String {
        "2026-01-01T00:00:00+00:00".to_string()
    }
}

#[test]
fn export_format_validation() {
    let svc = AnalysisService::new((), (), (), FixedClock);
    assert!(svc.check_export_format("json").is_ok());
    assert!(matches!(svc.check_export_format("png"), Err(AppError::Internal(_))));
    assert_eq!(
        svc.check_export_format("svg").unwrap_err(),
        AppError::Internal("Invalid export format 'svg'. Supported: 'json', 'png'.".to_string())
    );
    let meta = svc.export_metadata("p1");
    assert_eq!(meta.project_id, "p1");
    assert_eq!(meta.generated_at, "2026-01-01T00:00:00+00:00");
}

// ── Answers of the graph and scan services ──────────────────────────────────

fn file_info(id: &str) -> FileInfo {
    FileInfo {
        id: id.to_string(),
        path: format!("src/{}.ts", id),
        name: format!("{}.ts", id),
        extension: "ts".to_string(),
        symbols: vec![],
        lines: 3,
    }
}

#[test]
fn neighbours_of_unknown_node_are_not_found() {
    match neighbours_answer("ghost", vec![], false) {
        Err(AppError::NotFound(m)) => assert_eq!(m, "ghost"),
        other => panic!("unexpected {:?}", other),
    }
}

#[test]
fn neighbours_of_known_node_are_listed() {
    let r = NodeRef::new("e1".to_string(), "a".to_string(), "b".to_string(), vec![]);
    let found = neighbours_answer("a", vec![r], false).unwrap();
    assert_eq!(found.len(), 1);
    assert_eq!(found[0].target, "b");
    assert!(neighbours_answer("a", vec![], true).unwrap().is_empty());
}

#[test]
fn node_details_answer_gives_the_file_or_not_found() {
    let f = node_details_answer("a", Some(file_info("a"))).unwrap();
    assert_eq!(f.path, "src/a.ts");
    match node_details_answer("zz", None) {
        Err(AppError::FileNotFound(m)) => assert_eq!(m, "zz"),
        other => panic!("unexpected {:?}", other),
    }
}

#[test]
fn opened_project_keeps_metadata_and_files() {
    let meta = ProjectMeta {
        project_id: "p1".to_string(),
        project_name: "demo".to_string(),
        root_path: "/tmp/demo".to_string(),
        files_count: 1,
        symbols_count: 4,
        imports_count: 2,
        scan_duration_ms: 15,
        status: ScanStatus::Ready,
        error: None,
    };
    let r = opened_project(meta, vec![file_info("a")]);
    assert_eq!(r.project_id, "p1");
    assert_eq!(r.project_name, "demo");
    assert_eq!(r.root_path, "/tmp/demo");
    assert_eq!(r.symbols_count, 4);
    assert_eq!(r.imports_count, 2);
    assert_eq!(r.scan_duration_ms, 15);
    assert_eq!(r.files.len(), 1);
    assert_eq!(r.status, ScanStatus::Ready);
}

fn member_names(v: &engine::json::JsonValue) -> Vec<String> {
    match v {
        engine::json::JsonValue::Object(m) => m.iter().map(|(k, _)| k.clone()).collect(),
        _ => panic!("not an object"),
    }
}

#[test]
fn export_graph_without_cache_is_the_empty_graph_of_the_project() {
    let g = engine::services::export_graph_data(None, "p1", "2026-01-01T00:00:00+00:00");
    assert_eq!(member_names(&g), vec!["edges", "generated_at", "nodes", "project_id"]);
    match &g {
        engine::json::JsonValue::Object(m) => {
            assert!(matches!(&m[3].1, engine::json::JsonValue::Text(t) if t == "p1"));
            assert!(matches!(&m[1].1, engine::json::JsonValue::Text(t) if t == "2026-01-01T00:00:00+00:00"));
            assert!(matches!(&m[0].1, engine::json::JsonValue::Array(a) if a.is_empty()));
        }
        _ => unreachable!(),
    }
}

#[test]
fn export_graph_parses_the_cached_text() {
    let g = engine::services::export_graph_data(Some(r#"{"nodes":[{"id":"a"}],"edges":[]}"#), "p1", "t");
    assert_eq!(member_names(&g), vec!["edges", "nodes"]);
    match &g {
        engine::json::JsonValue::Object(m) => {
            assert!(matches!(&m[1].1, engine::json::JsonValue::Array(a) if a.len() == 1));
        }
        _ => unreachable!(),
    }
}

#[test]
fn export_graph_of_unreadable_cache_is_empty() {
    let g = engine::services::export_graph_data(Some("{not json"), "p1", "t");
    assert_eq!(member_names(&g), vec!["edges", "nodes"]);
}

#[test]
fn cached_insight_lists_parse_or_are_empty() {
    assert!(matches!(engine::services::cached_insight_list(r#"[{"nodes":["a","b"]}]"#), engine::json::JsonValue::Array(a) if a.len() == 1));
    assert!(matches!(engine::services::cached_insight_list("oops"), engine::json::JsonValue::Array(a) if a.is_empty()));
}

#[test]
fn cycle_detection_stops_at_the_cap_with_whole_components() {
    let names: Vec<String> = (0..102).map(|k| format!("n{}", k)).collect();
    let nodes: Vec<(String, String)> = names.iter().map(|n| (n.clone(), n.clone())).collect();
    let mut edges: Vec<(String, String)> = Vec::new();
    for k in 0..51 {
        edges.push((names[2 * k].clone(), names[2 * k + 1].clone()));
        edges.push((names[2 * k + 1].clone(), names[2 * k].clone()));
    }
    let cycles = detect_cycles(&nodes, &edges, &NoDeadline);
    assert_eq!(cycles.len(), 50);
    for c in &cycles {
        assert_eq!(c.length, 2);
        let a: usize = c.nodes[0][1..].parse().unwrap();
        let b: usize = c.nodes[1][1..].parse().unwrap();
        assert_eq!(a / 2, b / 2);
        assert_ne!(a, b);
    }
}
