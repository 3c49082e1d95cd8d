//! The graph and workspace use cases, the derivation of architecture (C4)
//! views from a snapshot, and the set differences between snapshots.

use vstd::prelude::*;
use crate::errors::AppError;
use crate::graph::{node_of, GraphBuilder};
use crate::json::{json_value, parse_json, JsonValue};
use crate::commands::ParseFile;
use crate::graph::{join_path, path_join};
use crate::models::{OutlineItem, ParseResult, C4View, FileInfo, GraphData, GraphEdge, GraphNode, ImportInfo, NodeRef, NodeType, ScanStatus};
use crate::ports::{opt_str, AppStatePort, Clock, CommentRow, GraphRepository, ScanRepository, SnapshotRow, WorkspaceRepository};
use crate::text::{append_str, lists, str_eq};

verus! {

broadcast use vstd::seq_lib::group_seq_properties;

// ── Graph use cases ─────────────────────────────────────────────────────────

/// The use cases on the dependency graph.
pub struct GraphService<G, S, A> {
    graph_repo: G,
    scan_repo: S,
    state: A,
}

/// Edges between nodes of the graph: both ends are node ids.
pub open spec fn edge_within(g: GraphData, e: GraphEdge) -> bool {
    exists|i: int, j: int|
        0 <= i < g.nodes@.len() && 0 <= j < g.nodes@.len() && (#[trigger] g.nodes@[i]).id@ == e.source@
            && (#[trigger] g.nodes@[j]).id@ == e.target@
}

fn node_has_id(g: &GraphData, id: &str) -> (r: bool)
    ensures
        r == exists|i: int| 0 <= i < g.nodes@.len() && (#[trigger] g.nodes@[i]).id@ == id@,
{
    let mut k: usize = 0;
    while k < g.nodes.len()
        invariant
            k <= g.nodes@.len(),
            forall|q: int| 0 <= q < k ==> (#[trigger] g.nodes@[q]).id@ != id@,
        decreases g.nodes@.len() - k,
    {
        if str_eq(g.nodes[k].id.as_str(), id) {
            return true;
        }
        k = k + 1;
    }
    false
}

/// Keeps the edges whose both ends are nodes of the graph, in order.
pub fn retain_internal_edges(g: GraphData) -> (r: GraphData)
    ensures
        r.nodes == g.nodes,
        r.project_id == g.project_id,
        r.generated_at == g.generated_at,
        forall|k: int| 0 <= k < r.edges@.len() ==> edge_within(g, #[trigger] r.edges@[k]),
        forall|k: int| 0 <= k < g.edges@.len() && edge_within(g, #[trigger] g.edges@[k]) ==> r.edges@.contains(g.edges@[k]),
        r.edges@.len() <= g.edges@.len(),
{
    let ghost orig = g;
    let GraphData { nodes, edges, project_id, generated_at } = g;
    let n = edges.len();
    let probe = GraphData { nodes, edges: Vec::new(), project_id, generated_at };
    let mut rest = edges;
    let mut kept: Vec<GraphEdge> = Vec::new();
    let mut k: usize = 0;
    while rest.len() > 0
        invariant
            probe.nodes == orig.nodes,
            k + rest@.len() == orig.edges@.len(),
            n == orig.edges@.len(),
            rest@ == orig.edges@.skip(k as int),
            kept@.len() <= k,
            forall|q: int| 0 <= q < kept@.len() ==> edge_within(orig, #[trigger] kept@[q]),
            forall|q: int| 0 <= q < k && edge_within(orig, #[trigger] orig.edges@[q]) ==> kept@.contains(orig.edges@[q]),
        decreases rest@.len(),
    {
        let e = rest.remove(0);
        proof {
            assert(e == orig.edges@[k as int]);
            assert(rest@ =~= orig.edges@.skip(k + 1));
        }
        let inside = node_has_id(&probe, e.source.as_str()) && node_has_id(&probe, e.target.as_str());
        let ghost before = kept@;
        if inside {
            kept.push(e);
            proof {
                assert forall|q: int| 0 <= q < k + 1 && edge_within(orig, #[trigger] orig.edges@[q]) implies kept@.contains(
                    orig.edges@[q],
                ) by {
                    if q < k {
                        let w = choose|w: int| 0 <= w < before.len() && before[w] == orig.edges@[q];
                        assert(kept@[w] == before[w]);
                    } else {
                        assert(kept@[kept@.len() - 1] == orig.edges@[q]);
                    }
                }
            }
        }
        k = k + 1;
    }
    GraphData { nodes: probe.nodes, edges: kept, project_id: probe.project_id, generated_at: probe.generated_at }
}

impl<G, S, A> GraphService<G, S, A> {
    /// A service over the graph store, the scan store and the application
    /// state.
    pub fn new(graph_repo: G, scan_repo: S, state: A) -> (r: Self)
        ensures
            r.graph_store() == graph_repo,
            r.scan_store() == scan_repo,
            r.state_part() == state,
    {
        GraphService { graph_repo, scan_repo, state }
    }

    /// The graph store, as a spec value.
    pub closed spec fn graph_store(&self) -> G {
        self.graph_repo
    }

    /// The scan store, as a spec value.
    pub closed spec fn scan_store(&self) -> S {
        self.scan_repo
    }

    /// The application state, as a spec value.
    pub closed spec fn state_part(&self) -> A {
        self.state
    }

    /// The graph store.
    pub fn graph_repo(&self) -> (r: &G)
        ensures
            *r == self.graph_store(),
    {
        &self.graph_repo
    }

    /// The scan store.
    pub fn scan_repo(&self) -> (r: &S)
        ensures
            *r == self.scan_store(),
    {
        &self.scan_repo
    }

    /// The application state.
    pub fn state(&self) -> (r: &A)
        ensures
            *r == self.state_part(),
    {
        &self.state
    }
}

/// The node a search lists for a file: its id, name and path, of unknown
/// type and without symbols.
pub open spec fn search_node(f: FileInfo, n: GraphNode) -> bool {
    &&& n.id@ == f.id@
    &&& n.label@ == f.name@
    &&& n.path@ == f.path@
    &&& n.node_type == NodeType::Unknown
    &&& n.symbol_count == 0
}

/// The graph nodes listing `files`, in order.
pub fn nodes_of_files(files: Vec<FileInfo>) -> (r: Vec<GraphNode>)
    ensures
        r@.len() == files@.len(),
        forall|k: int| 0 <= k < files@.len() ==> search_node(#[trigger] files@[k], r@[k]),
{
    let mut out: Vec<GraphNode> = Vec::new();
    let mut k: usize = 0;
    while k < files.len()
        invariant
            k <= files@.len(),
            out@.len() == k,
            forall|q: int| 0 <= q < k ==> search_node(#[trigger] files@[q], out@[q]),
        decreases files@.len() - k,
    {
        let f = &files[k];
        out.push(
            GraphNode {
                id: f.id.clone(),
                label: f.name.clone(),
                path: f.path.clone(),
                node_type: NodeType::Unknown,
                symbol_count: 0,
            },
        );
        k = k + 1;
    }
    out
}

/// The answer to a query for the neighbours of `node_id`, given the nodes
/// the store found and whether the node has a file (asked only when none
/// was found): the nodes, unless there are none and the node has no file,
/// which is then not found.
pub fn neighbours_answer(node_id: &str, deps: Vec<NodeRef>, has_file: bool) -> (r: Result<Vec<NodeRef>, AppError>)
    ensures
        deps@.len() == 0 && !has_file ==> (r matches Err(AppError::NotFound(m)) && m@ == node_id@),
        deps@.len() > 0 || has_file ==> r == Ok::<Vec<NodeRef>, AppError>(deps),
{
    if deps.len() == 0 && !has_file {
        Err(AppError::NotFound(node_id.to_owned()))
    } else {
        Ok(deps)
    }
}

/// The answer to a query for the file behind `node_id`, given what the
/// store found: that file, or not found.
pub fn node_details_answer(node_id: &str, found: Option<FileInfo>) -> (r: Result<FileInfo, AppError>)
    ensures
        found matches Some(f) ==> r == Ok::<FileInfo, AppError>(f),
        found is None ==> (r matches Err(AppError::FileNotFound(m)) && m@ == node_id@),
{
    match found {
        Some(f) => Ok(f),
        None => Err(AppError::FileNotFound(node_id.to_owned())),
    }
}

/// The number of files a search lists when no limit is given.
pub open spec fn search_limit(limit: Option<usize>) -> usize {
    match limit {
        Some(l) => l,
        None => 20,
    }
}

/// What a query for the neighbours of `node_id` answers, given what the
/// store found (`d`) and, when it found none, the lookup of the node's file
/// (`f`): the store's error, the nodes found, or not found when there are
/// none and the node has no file.
pub open spec fn neighbours_outcome(
    node_id: Seq<char>,
    d: Result<Vec<NodeRef>, AppError>,
    f: Result<Option<FileInfo>, AppError>,
    r: Result<Vec<NodeRef>, AppError>,
) -> bool {
    match d {
        Err(e) => r == Err::<Vec<NodeRef>, AppError>(e),
        Ok(deps) => if deps@.len() > 0 {
            r == Ok::<Vec<NodeRef>, AppError>(deps)
        } else {
            match f {
                Err(e) => r == Err::<Vec<NodeRef>, AppError>(e),
                Ok(Some(_)) => r == Ok::<Vec<NodeRef>, AppError>(deps),
                Ok(None) => (r matches Err(AppError::NotFound(m)) && m@ == node_id),
            }
        },
    }
}

/// The message for a project without files.
pub open spec fn no_files_message(project_id: Seq<char>) -> Seq<char> {
    "Project "@ + project_id + " has no files in database"@
}

/// What building the graph of `project_id` answers, given the store's
/// files (`fa`), the status update made when there are none (`sa`), and
/// otherwise the imports (`ia`) and the project record (`pa`): the first
/// error met; not found when there are no files; else a graph with one node
/// per file, in order.
pub open spec fn graph_outcome(
    project_id: Seq<char>,
    fa: Result<Vec<FileInfo>, AppError>,
    sa: Result<(), AppError>,
    ia: Result<Vec<ImportInfo>, AppError>,
    pa: Result<Option<(String, String, i64)>, AppError>,
    r: Result<GraphData, AppError>,
) -> bool {
    match fa {
        Err(e) => r == Err::<GraphData, AppError>(e),
        Ok(fs) => if fs@.len() == 0 {
            match sa {
                Err(e) => r == Err::<GraphData, AppError>(e),
                Ok(_) => (r matches Err(AppError::ProjectNotFound(m)) && m@ == no_files_message(project_id)),
            }
        } else {
            match ia {
                Err(e) => r == Err::<GraphData, AppError>(e),
                Ok(_) => match pa {
                    Err(e) => r == Err::<GraphData, AppError>(e),
                    Ok(_) => (r matches Ok(g) && g.nodes@.len() == fs@.len() && forall|k: int|
                        0 <= k < fs@.len() ==> node_of(#[trigger] fs@[k], g.nodes@[k])),
                },
            }
        },
    }
}

/// Where the outline of a node comes from.
pub enum OutlineSource {
    /// The outline stored for the node.
    Stored(Vec<OutlineItem>),
    /// The node's file, to be read and parsed: its path on disk and its
    /// extension.
    File { path: String, extension: String },
    /// Nothing: the node's file or its project root is unknown.
    Missing,
}

/// The source for the file `fi` under the project root `root`: nothing
/// when the root is empty, else the root joined with the file's path.
pub open spec fn file_source(root: Seq<char>, fi: FileInfo, r: Result<OutlineSource, AppError>) -> bool {
    if root.len() == 0 {
        r == Ok::<OutlineSource, AppError>(OutlineSource::Missing)
    } else {
        r matches Ok(OutlineSource::File { path, extension }) && path@ == path_join(root, fi.path@) && extension@ == fi.extension@
    }
}

/// `o` as text, empty when absent.
pub open spec fn text_or_empty(o: Option<String>) -> Seq<char> {
    match o {
        Some(t) => t@,
        None => Seq::empty(),
    }
}

impl<G: GraphRepository, S: ScanRepository, A: AppStatePort> GraphService<G, S, A> {
    /// Where the outline of `node_id` comes from: the stored outline when
    /// it is not empty; else the node's file under `root_path` (or, when
    /// that is absent or empty, under the root the store records for the
    /// file); nothing when the file or the root is unknown.
    pub fn outline_source(&self, node_id: &str, root_path: Option<&str>) -> (r: Result<OutlineSource, AppError>)
        ensures
            exists|stored: Result<Vec<OutlineItem>, AppError>|
                #[trigger] self.graph_store().gives_outline_items(node_id@, stored) && match stored {
                    Err(e) => r == Err::<OutlineSource, AppError>(e),
                    Ok(items) => if items@.len() > 0 {
                        r == Ok::<OutlineSource, AppError>(OutlineSource::Stored(items))
                    } else {
                        exists|file: Result<Option<FileInfo>, AppError>|
                            #[trigger] self.scan_store().gives_file_by_id(node_id@, file) && match file {
                                Err(e) => r == Err::<OutlineSource, AppError>(e),
                                Ok(None) => r == Ok::<OutlineSource, AppError>(OutlineSource::Missing),
                                Ok(Some(fi)) => if root_path matches Some(p) && p@.len() > 0 {
                                    file_source(root_path->0@, fi, r)
                                } else {
                                    exists|known: Result<Option<String>, AppError>|
                                        #[trigger] self.graph_store().gives_project_root_for_file(node_id@, known) && match known {
                                            Err(e) => r == Err::<OutlineSource, AppError>(e),
                                            Ok(o) => file_source(text_or_empty(o), fi, r),
                                        }
                                },
                            }
                    },
                },
    {
        let stored = self.graph_repo.get_outline_items(node_id);
        let ghost sg = stored;
        assert(self.graph_store().gives_outline_items(node_id@, sg));
        let items = match stored {
            Err(e) => {
                assert(sg == Err::<Vec<OutlineItem>, AppError>(e));
                return Err(e);
            },
            Ok(items) => items,
        };
        assert(sg == Ok::<Vec<OutlineItem>, AppError>(items));
        if items.len() > 0 {
            return Ok(OutlineSource::Stored(items));
        }
        let file = self.scan_repo.get_file_by_id(node_id);
        let ghost fg = file;
        assert(self.scan_store().gives_file_by_id(node_id@, fg));
        let fi = match file {
            Err(e) => return Err(e),
            Ok(None) => return Ok(OutlineSource::Missing),
            Ok(Some(fi)) => fi,
        };
        let root: String = match root_path {
            Some(p) if !p.is_empty() => p.to_owned(),
            _ => {
                let known = self.graph_repo.get_project_root_for_file(node_id);
                assert(self.graph_store().gives_project_root_for_file(node_id@, known));
                match known {
                    Err(e) => return Err(e),
                    Ok(Some(t)) => t,
                    Ok(None) => String::new(),
                }
            },
        };
        if root.as_str().is_empty() {
            return Ok(OutlineSource::Missing);
        }
        let path = join_path(root.as_str(), fi.path.as_str());
        Ok(OutlineSource::File { path, extension: fi.extension })
    }

    /// The outline of `node_id` parsed from its file's `content` at `path`
    /// (empty when the file could not be read); a non-empty outline is
    /// stored for the node.
    pub fn outline_from_file(
        &self,
        registry: &dyn ParseFile,
        node_id: &str,
        path: &str,
        content: Option<&str>,
        extension: &str,
    ) -> (r: Vec<OutlineItem>)
        ensures
            match content {
                None => r@.len() == 0,
                Some(c) => exists|p: ParseResult| #[trigger] registry.parses_file(path@, c@, extension@, node_id@, p) && r == p.outline,
            },
    {
        match content {
            None => Vec::new(),
            Some(c) => {
                let parsed = registry.parse_file(path, c, extension, node_id);
                let ghost whole = parsed;
                let outline = parsed.outline;
                assert(registry.parses_file(path@, c@, extension@, node_id@, whole) && outline == whole.outline);
                if outline.len() > 0 {
                    let _ = self.graph_repo.save_outline_items(node_id, outline.as_slice());
                }
                outline
            },
        }
    }

    /// The nodes `node_id` depends on; an unknown node without
    /// dependencies is not found (see [`neighbours_answer`]).
    pub fn get_dependencies(&self, node_id: &str) -> (r: Result<Vec<NodeRef>, AppError>)
        ensures
            exists|d: Result<Vec<NodeRef>, AppError>, f: Result<Option<FileInfo>, AppError>|
                self.graph_store().gives_dependencies(node_id@, d) && (d matches Ok(v) && v@.len() == 0
                    ==> self.scan_store().gives_file_by_id(node_id@, f)) && #[trigger] neighbours_outcome(node_id@, d, f, r),
    {
        let d = self.graph_repo.get_dependencies(node_id);
        let ghost dg = d;
        let ghost mut fg: Result<Option<FileInfo>, AppError> = Ok(None);
        let res = match d {
            Err(e) => Err(e),
            Ok(deps) => if deps.len() == 0 {
                let f = self.scan_repo.get_file_by_id(node_id);
                proof {
                    fg = f;
                }
                match f {
                    Err(e) => Err(e),
                    Ok(x) => neighbours_answer(node_id, deps, x.is_some()),
                }
            } else {
                neighbours_answer(node_id, deps, true)
            },
        };
        proof {
            assert(neighbours_outcome(node_id@, dg, fg, res));
        }
        res
    }

    /// The nodes that depend on `node_id`; an unknown node without
    /// dependents is not found (see [`neighbours_answer`]).
    pub fn get_dependents(&self, node_id: &str) -> (r: Result<Vec<NodeRef>, AppError>)
        ensures
            exists|d: Result<Vec<NodeRef>, AppError>, f: Result<Option<FileInfo>, AppError>|
                self.graph_store().gives_dependents(node_id@, d) && (d matches Ok(v) && v@.len() == 0
                    ==> self.scan_store().gives_file_by_id(node_id@, f)) && #[trigger] neighbours_outcome(node_id@, d, f, r),
    {
        let d = self.graph_repo.get_dependents(node_id);
        let ghost dg = d;
        let ghost mut fg: Result<Option<FileInfo>, AppError> = Ok(None);
        let res = match d {
            Err(e) => Err(e),
            Ok(deps) => if deps.len() == 0 {
                let f = self.scan_repo.get_file_by_id(node_id);
                proof {
                    fg = f;
                }
                match f {
                    Err(e) => Err(e),
                    Ok(x) => neighbours_answer(node_id, deps, x.is_some()),
                }
            } else {
                neighbours_answer(node_id, deps, true)
            },
        };
        proof {
            assert(neighbours_outcome(node_id@, dg, fg, res));
        }
        res
    }

    /// Files of a project whose name or path matches `query`, at most
    /// `limit` of them (twenty when none is given), listed as graph nodes.
    pub fn search_nodes(&self, project_id: &str, query: &str, limit: Option<usize>) -> (r: Result<Vec<GraphNode>, AppError>)
        ensures
            exists|a: Result<Vec<FileInfo>, AppError>|
                #[trigger] self.graph_store().gives_search_files(project_id@, query@, search_limit(limit), a) && match a {
                    Ok(files) => (r matches Ok(ns) && ns@.len() == files@.len() && forall|k: int|
                        0 <= k < files@.len() ==> search_node(#[trigger] files@[k], ns@[k])),
                    Err(e) => r == Err::<Vec<GraphNode>, AppError>(e),
                },
    {
        let n = match limit {
            Some(l) => l,
            None => 20,
        };
        let a = self.graph_repo.search_files(project_id, query, n);
        let ghost ag = a;
        proof {
            assert(self.graph_store().gives_search_files(project_id@, query@, search_limit(limit), ag));
        }
        match a {
            Ok(files) => Ok(nodes_of_files(files)),
            Err(e) => Err(e),
        }
    }

    /// The file behind a node (see [`node_details_answer`]).
    pub fn get_node_details(&self, node_id: &str) -> (r: Result<FileInfo, AppError>)
        ensures
            exists|a: Result<Option<FileInfo>, AppError>|
                #[trigger] self.scan_store().gives_file_by_id(node_id@, a) && match a {
                    Ok(Some(f)) => r == Ok::<FileInfo, AppError>(f),
                    Ok(None) => (r matches Err(AppError::FileNotFound(m)) && m@ == node_id@),
                    Err(e) => r == Err::<FileInfo, AppError>(e),
                },
    {
        let a = self.scan_repo.get_file_by_id(node_id);
        let ghost ag = a;
        proof {
            assert(self.scan_store().gives_file_by_id(node_id@, ag));
        }
        match a {
            Ok(found) => node_details_answer(node_id, found),
            Err(e) => Err(e),
        }
    }

    /// Builds the graph of a project from its stored files and imports,
    /// keeping only edges between files of the project; a project without
    /// files is reported not found (and the status becomes Error).
    pub fn build_graph(&self, project_id: &str) -> (r: Result<GraphData, AppError>)
        ensures
            r matches Ok(g) ==> forall|k: int| 0 <= k < g.edges@.len() ==> exists|i: int, j: int|
                0 <= i < g.nodes@.len() && 0 <= j < g.nodes@.len() && (#[trigger] g.nodes@[i]).id@ == (#[trigger] g.edges@[k]).source@
                    && (#[trigger] g.nodes@[j]).id@ == g.edges@[k].target@,
            exists|
                fa: Result<Vec<FileInfo>, AppError>,
                sa: Result<(), AppError>,
                ia: Result<Vec<ImportInfo>, AppError>,
                pa: Result<Option<(String, String, i64)>, AppError>,
            |
                #[trigger] graph_outcome(project_id@, fa, sa, ia, pa, r) && self.scan_store().gives_files(project_id@, fa) && (fa
                    matches Ok(fs) && fs@.len() == 0 ==> self.state_part().gives_set_scan_status(ScanStatus::Error, sa)) && (fa
                    matches Ok(fs) && fs@.len() > 0 ==> self.scan_store().gives_imports(project_id@, ia)) && (fa matches Ok(fs)
                    && fs@.len() > 0 && ia is Ok ==> self.scan_store().gives_project(project_id@, pa)),
    {
        let fa = self.scan_repo.get_files(project_id);
        let ghost fg = fa;
        let ghost mut sg: Result<(), AppError> = Ok(());
        let ghost mut ig: Result<Vec<ImportInfo>, AppError> = Err(AppError::AIRateLimited);
        let ghost mut pg: Result<Option<(String, String, i64)>, AppError> = Ok(None);
        let res: Result<GraphData, AppError> = match fa {
            Err(e) => Err(e),
            Ok(files) => if files.len() == 0 {
                let sa = self.state.set_scan_status(ScanStatus::Error);
                proof {
                    sg = sa;
                }
                match sa {
                    Err(e) => Err(e),
                    Ok(()) => {
                        let mut m = String::new();
                        append_str(&mut m, "Project ");
                        append_str(&mut m, project_id);
                        append_str(&mut m, " has no files in database");
                        Err(AppError::ProjectNotFound(m))
                    },
                }
            } else {
                let ia = self.scan_repo.get_imports(project_id);
                proof {
                    ig = ia;
                }
                match ia {
                    Err(e) => Err(e),
                    Ok(imports) => {
                        let pa = self.scan_repo.get_project(project_id);
                        proof {
                            pg = pa;
                        }
                        match pa {
                            Err(e) => Err(e),
                            Ok(p) => {
                                let root = match p {
                                    Some((_, root, _)) => root,
                                    None => {
                                        let mut r = String::new();
                                        append_str(&mut r, "/projects/");
                                        append_str(&mut r, project_id);
                                        r
                                    },
                                };
                                let builder = GraphBuilder::new(root.as_str());
                                match builder.build(files.as_slice(), imports.as_slice()) {
                                    Ok(graph) => Ok(retain_internal_edges(graph)),
                                    Err(e) => Err(e),
                                }
                            },
                        }
                    },
                }
            },
        };
        proof {
            assert(graph_outcome(project_id@, fg, sg, ig, pg, res));
        }
        res
    }
}

// ── Workspace use cases ─────────────────────────────────────────────────────

/// A workspace.
#[derive(Debug, Clone)]
pub struct WorkspaceResponse {
    pub id: String,
    pub name: String,
    pub created_at: String,
}

/// A project attached to a workspace.
#[derive(Debug, Clone)]
pub struct WorkspaceProjectResponse {
    pub workspace_id: String,
    pub project_id: String,
}

/// A snapshot of a project.
#[derive(Debug, Clone)]
pub struct SnapshotResponse {
    pub id: String,
    pub project_id: String,
    pub workspace_id: Option<String>,
    pub label: String,
    pub created_at: String,
    pub payload_json: Option<String>,
}

/// A comment on a node.
#[derive(Debug, Clone)]
pub struct AnnotationResponse {
    pub id: String,
    pub project_id: String,
    pub node_id: String,
    pub author: String,
    pub kind: String,
    pub text: String,
    pub created_at: String,
}

/// An architecture view at a C4 level.
#[derive(Debug, Clone)]
pub struct C4ViewResponse {
    pub level: u8,
    pub systems: Option<Vec<String>>,
    pub containers: Option<Vec<String>>,
    pub warning: Option<String>,
}

/// The response for a stored workspace row.
pub fn workspace_response(row: (String, String, String)) -> (r: WorkspaceResponse)
    ensures
        r.id == row.0 && r.name == row.1 && r.created_at == row.2,
{
    let (id, name, created_at) = row;
    WorkspaceResponse { id, name, created_at }
}

/// The response for a stored snapshot row.
pub fn snapshot_response(row: SnapshotRow) -> (r: SnapshotResponse)
    ensures
        r.id == row.0 && r.project_id == row.1 && r.workspace_id == row.2 && r.label == row.3 && r.created_at == row.4
            && r.payload_json == row.5,
{
    let (id, project_id, workspace_id, label, created_at, payload_json) = row;
    SnapshotResponse { id, project_id, workspace_id, label, created_at, payload_json }
}

/// The response for a stored comment row.
pub fn annotation_response(row: CommentRow) -> (r: AnnotationResponse)
    ensures
        r.id == row.0 && r.project_id == row.1 && r.node_id == row.2 && r.author == row.3 && r.kind == row.4
            && r.text == row.5 && r.created_at == row.6,
{
    let (id, project_id, node_id, author, kind, text, created_at) = row;
    AnnotationResponse { id, project_id, node_id, author, kind, text, created_at }
}

/// The use cases on workspaces, snapshots and comments.
pub struct WorkspaceService<W> {
    workspace_repo: W,
}

impl<W> WorkspaceService<W> {
    /// A service over a workspace store.
    pub fn new(workspace_repo: W) -> (r: Self)
        ensures
            r.workspace_store() == workspace_repo,
    {
        WorkspaceService { workspace_repo }
    }

    /// The workspace store, as a spec value.
    pub closed spec fn workspace_store(&self) -> W {
        self.workspace_repo
    }

    /// The workspace store.
    pub fn workspace_repo(&self) -> (r: &W)
        ensures
            *r == self.workspace_store(),
    {
        &self.workspace_repo
    }
}

/// The responses for stored workspace rows, in order.
pub fn workspace_responses(rows: Vec<(String, String, String)>) -> (r: Vec<WorkspaceResponse>)
    ensures
        r@.len() == rows@.len(),
        forall|k: int| 0 <= k < r@.len() ==> (#[trigger] r@[k]).id == rows@[k].0 && r@[k].name == rows@[k].1
            && r@[k].created_at == rows@[k].2,
{
    let mut out: Vec<WorkspaceResponse> = Vec::new();
    let mut rest = rows;
    let ghost orig = rest@;
    while rest.len() > 0
        invariant
            out@.len() + rest@.len() == orig.len(),
            rest@ == orig.skip(out@.len() as int),
            forall|k: int| 0 <= k < out@.len() ==> (#[trigger] out@[k]).id == orig[k].0 && out@[k].name == orig[k].1
                && out@[k].created_at == orig[k].2,
        decreases rest@.len(),
    {
        let ghost n = out@.len();
        let row = rest.remove(0);
        assert(row == orig[n as int]);
        assert(rest@ =~= orig.skip(n + 1int));
        out.push(workspace_response(row));
    }
    out
}

/// The responses for stored workspace–project rows, in order.
pub fn workspace_project_responses(rows: Vec<(String, String)>) -> (r: Vec<WorkspaceProjectResponse>)
    ensures
        r@.len() == rows@.len(),
        forall|k: int| 0 <= k < r@.len() ==> (#[trigger] r@[k]).workspace_id == rows@[k].0 && r@[k].project_id == rows@[k].1,
{
    let mut out: Vec<WorkspaceProjectResponse> = Vec::new();
    let mut rest = rows;
    let ghost orig = rest@;
    while rest.len() > 0
        invariant
            out@.len() + rest@.len() == orig.len(),
            rest@ == orig.skip(out@.len() as int),
            forall|k: int| 0 <= k < out@.len() ==> (#[trigger] out@[k]).workspace_id == orig[k].0 && out@[k].project_id == orig[k].1,
        decreases rest@.len(),
    {
        let ghost n = out@.len();
        let (workspace_id, project_id) = rest.remove(0);
        assert(rest@ =~= orig.skip(n + 1int));
        out.push(WorkspaceProjectResponse { workspace_id, project_id });
    }
    out
}

/// The responses for stored snapshot rows, in order.
pub fn snapshot_responses(rows: Vec<SnapshotRow>) -> (r: Vec<SnapshotResponse>)
    ensures
        r@.len() == rows@.len(),
        forall|k: int| 0 <= k < r@.len() ==> (#[trigger] r@[k]).id == rows@[k].0 && r@[k].project_id == rows@[k].1
            && r@[k].workspace_id == rows@[k].2 && r@[k].label == rows@[k].3 && r@[k].created_at == rows@[k].4
            && r@[k].payload_json == rows@[k].5,
{
    let mut out: Vec<SnapshotResponse> = Vec::new();
    let mut rest = rows;
    let ghost orig = rest@;
    while rest.len() > 0
        invariant
            out@.len() + rest@.len() == orig.len(),
            rest@ == orig.skip(out@.len() as int),
            forall|k: int| 0 <= k < out@.len() ==> (#[trigger] out@[k]).id == orig[k].0 && out@[k].project_id == orig[k].1
                && out@[k].workspace_id == orig[k].2 && out@[k].label == orig[k].3 && out@[k].created_at == orig[k].4
                && out@[k].payload_json == orig[k].5,
        decreases rest@.len(),
    {
        let ghost n = out@.len();
        let row = rest.remove(0);
        assert(row == orig[n as int]);
        assert(rest@ =~= orig.skip(n + 1int));
        out.push(snapshot_response(row));
    }
    out
}

/// The responses for stored comment rows, in order.
pub fn annotation_responses(rows: Vec<CommentRow>) -> (r: Vec<AnnotationResponse>)
    ensures
        r@.len() == rows@.len(),
        forall|k: int| 0 <= k < r@.len() ==> (#[trigger] r@[k]).id == rows@[k].0 && r@[k].project_id == rows@[k].1
            && r@[k].node_id == rows@[k].2 && r@[k].author == rows@[k].3 && r@[k].kind == rows@[k].4 && r@[k].text
            == rows@[k].5 && r@[k].created_at == rows@[k].6,
{
    let mut out: Vec<AnnotationResponse> = Vec::new();
    let mut rest = rows;
    let ghost orig = rest@;
    while rest.len() > 0
        invariant
            out@.len() + rest@.len() == orig.len(),
            rest@ == orig.skip(out@.len() as int),
            forall|k: int| 0 <= k < out@.len() ==> (#[trigger] out@[k]).id == orig[k].0 && out@[k].project_id == orig[k].1
                && out@[k].node_id == orig[k].2 && out@[k].author == orig[k].3 && out@[k].kind == orig[k].4
                && out@[k].text == orig[k].5 && out@[k].created_at == orig[k].6,
        decreases rest@.len(),
    {
        let ghost n = out@.len();
        let row = rest.remove(0);
        assert(row == orig[n as int]);
        assert(rest@ =~= orig.skip(n + 1int));
        out.push(annotation_response(row));
    }
    out
}

/// The response for a C4 view.
pub fn c4_view_response(v: C4View) -> (r: C4ViewResponse)
    ensures
        r.level == v.level && r.systems == v.systems && r.containers == v.containers && r.warning == v.warning,
{
    C4ViewResponse { level: v.level, systems: v.systems, containers: v.containers, warning: v.warning }
}

/// `w` is the response for the workspace row `row`.
pub open spec fn workspace_of(row: (String, String, String), w: WorkspaceResponse) -> bool {
    w.id == row.0 && w.name == row.1 && w.created_at == row.2
}

/// `ws` are the responses for the workspace rows `rows`, in order.
pub open spec fn workspaces_of(rows: Seq<(String, String, String)>, ws: Seq<WorkspaceResponse>) -> bool {
    ws.len() == rows.len() && forall|k: int| 0 <= k < ws.len() ==> workspace_of(rows[k], #[trigger] ws[k])
}

/// `ps` are the responses for the workspace–project rows `rows`, in order.
pub open spec fn projects_of(rows: Seq<(String, String)>, ps: Seq<WorkspaceProjectResponse>) -> bool {
    ps.len() == rows.len() && forall|k: int|
        0 <= k < ps.len() ==> (#[trigger] ps[k]).workspace_id == rows[k].0 && ps[k].project_id == rows[k].1
}

/// `v` is the response for the snapshot row `row`.
pub open spec fn snapshot_of(row: SnapshotRow, v: SnapshotResponse) -> bool {
    v.id == row.0 && v.project_id == row.1 && v.workspace_id == row.2 && v.label == row.3 && v.created_at == row.4
        && v.payload_json == row.5
}

/// `vs` are the responses for the snapshot rows `rows`, in order.
pub open spec fn snapshots_of(rows: Seq<SnapshotRow>, vs: Seq<SnapshotResponse>) -> bool {
    vs.len() == rows.len() && forall|k: int| 0 <= k < vs.len() ==> snapshot_of(rows[k], #[trigger] vs[k])
}

/// `a` is the response for the comment row `row`.
pub open spec fn annotation_of(row: CommentRow, a: AnnotationResponse) -> bool {
    a.id == row.0 && a.project_id == row.1 && a.node_id == row.2 && a.author == row.3 && a.kind == row.4 && a.text
        == row.5 && a.created_at == row.6
}

/// `as_` are the responses for the comment rows `rows`, in order.
pub open spec fn annotations_of(rows: Seq<CommentRow>, as_: Seq<AnnotationResponse>) -> bool {
    as_.len() == rows.len() && forall|k: int| 0 <= k < as_.len() ==> annotation_of(rows[k], #[trigger] as_[k])
}

/// `c` is the response for the view `v`.
pub open spec fn c4_of(v: C4View, c: C4ViewResponse) -> bool {
    c.level == v.level && c.systems == v.systems && c.containers == v.containers && c.warning == v.warning
}

impl<W: WorkspaceRepository> WorkspaceService<W> {
    /// Creates a workspace: the store's row as a response, or its error.
    pub fn create_workspace(&self, name: &str) -> (r: Result<WorkspaceResponse, AppError>)
        ensures
            exists|a: Result<(String, String, String), AppError>|
                #[trigger] self.workspace_store().gives_create_workspace(name@, a) && match a {
                    Ok(row) => (r matches Ok(w) && workspace_of(row, w)),
                    Err(e) => r == Err::<WorkspaceResponse, AppError>(e),
                },
    {
        let a = self.workspace_repo.create_workspace(name);
        let ghost ag = a;
        proof {
            assert(self.workspace_store().gives_create_workspace(name@, ag));
        }
        match a {
            Ok(row) => Ok(workspace_response(row)),
            Err(e) => Err(e),
        }
    }

    /// The stored workspaces as responses, or the store's error.
    pub fn list_workspaces(&self) -> (r: Result<Vec<WorkspaceResponse>, AppError>)
        ensures
            exists|a: Result<Vec<(String, String, String)>, AppError>|
                #[trigger] self.workspace_store().gives_workspaces(a) && match a {
                    Ok(rows) => (r matches Ok(ws) && workspaces_of(rows@, ws@)),
                    Err(e) => r == Err::<Vec<WorkspaceResponse>, AppError>(e),
                },
    {
        let a = self.workspace_repo.list_workspaces();
        let ghost ag = a;
        proof {
            assert(self.workspace_store().gives_workspaces(ag));
        }
        match a {
            Ok(rows) => Ok(workspace_responses(rows)),
            Err(e) => Err(e),
        }
    }

    /// Attaches a project to a workspace: the store's answer.
    pub fn attach_project_to_workspace(&self, workspace_id: &str, project_id: &str) -> (r: Result<(), AppError>)
        ensures
            self.workspace_store().gives_attach(workspace_id@, project_id@, r),
    {
        self.workspace_repo.attach_project_to_workspace(workspace_id, project_id)
    }

    /// The projects of a workspace as responses, or the store's error.
    pub fn list_workspace_projects(&self, workspace_id: &str) -> (r: Result<Vec<WorkspaceProjectResponse>, AppError>)
        ensures
            exists|a: Result<Vec<(String, String)>, AppError>|
                #[trigger] self.workspace_store().gives_workspace_projects(workspace_id@, a) && match a {
                    Ok(rows) => (r matches Ok(ps) && projects_of(rows@, ps@)),
                    Err(e) => r == Err::<Vec<WorkspaceProjectResponse>, AppError>(e),
                },
    {
        let a = self.workspace_repo.list_workspace_projects(workspace_id);
        let ghost ag = a;
        proof {
            assert(self.workspace_store().gives_workspace_projects(workspace_id@, ag));
        }
        match a {
            Ok(rows) => Ok(workspace_project_responses(rows)),
            Err(e) => Err(e),
        }
    }

    /// Creates a snapshot: the store's row as a response, or its error.
    pub fn create_snapshot(&self, project_id: &str, label: &str, workspace_id: Option<&str>) -> (r: Result<SnapshotResponse, AppError>)
        ensures
            exists|a: Result<SnapshotRow, AppError>|
                #[trigger] self.workspace_store().gives_create_snapshot(project_id@, label@, opt_str(workspace_id), a) && match a {
                    Ok(row) => (r matches Ok(v) && snapshot_of(row, v)),
                    Err(e) => r == Err::<SnapshotResponse, AppError>(e),
                },
    {
        let a = self.workspace_repo.create_snapshot(project_id, label, workspace_id);
        let ghost ag = a;
        proof {
            assert(self.workspace_store().gives_create_snapshot(project_id@, label@, opt_str(workspace_id), ag));
        }
        match a {
            Ok(row) => Ok(snapshot_response(row)),
            Err(e) => Err(e),
        }
    }

    /// A snapshot as a response, none when the store has none, or the
    /// store's error.
    pub fn get_snapshot(&self, snapshot_id: &str) -> (r: Result<Option<SnapshotResponse>, AppError>)
        ensures
            exists|a: Result<Option<SnapshotRow>, AppError>|
                #[trigger] self.workspace_store().gives_snapshot(snapshot_id@, a) && match a {
                    Ok(Some(row)) => (r matches Ok(Some(v)) && snapshot_of(row, v)),
                    Ok(None) => r == Ok::<Option<SnapshotResponse>, AppError>(None),
                    Err(e) => r == Err::<Option<SnapshotResponse>, AppError>(e),
                },
    {
        let a = self.workspace_repo.get_snapshot(snapshot_id);
        let ghost ag = a;
        proof {
            assert(self.workspace_store().gives_snapshot(snapshot_id@, ag));
        }
        match a {
            Ok(Some(row)) => Ok(Some(snapshot_response(row))),
            Ok(None) => Ok(None),
            Err(e) => Err(e),
        }
    }

    /// The snapshots of a project as responses, or the store's error.
    pub fn list_snapshots(&self, project_id: &str, workspace_id: Option<&str>) -> (r: Result<Vec<SnapshotResponse>, AppError>)
        ensures
            exists|a: Result<Vec<SnapshotRow>, AppError>|
                #[trigger] self.workspace_store().gives_snapshots(project_id@, opt_str(workspace_id), a) && match a {
                    Ok(rows) => (r matches Ok(vs) && snapshots_of(rows@, vs@)),
                    Err(e) => r == Err::<Vec<SnapshotResponse>, AppError>(e),
                },
    {
        let a = self.workspace_repo.list_snapshots(project_id, workspace_id);
        let ghost ag = a;
        proof {
            assert(self.workspace_store().gives_snapshots(project_id@, opt_str(workspace_id), ag));
        }
        match a {
            Ok(rows) => Ok(snapshot_responses(rows)),
            Err(e) => Err(e),
        }
    }

    /// Adds a comment: the store's row as a response, or its error.
    pub fn add_comment(
        &self,
        project_id: &str,
        node_id: &str,
        author: &str,
        text: &str,
        kind: Option<&str>,
    ) -> (r: Result<AnnotationResponse, AppError>)
        ensures
            exists|a: Result<CommentRow, AppError>|
                #[trigger] self.workspace_store().gives_add_comment(project_id@, node_id@, author@, text@, opt_str(kind), a)
                    && match a {
                    Ok(row) => (r matches Ok(c) && annotation_of(row, c)),
                    Err(e) => r == Err::<AnnotationResponse, AppError>(e),
                },
    {
        let a = self.workspace_repo.add_comment(project_id, node_id, author, text, kind);
        let ghost ag = a;
        proof {
            assert(self.workspace_store().gives_add_comment(project_id@, node_id@, author@, text@, opt_str(kind), ag));
        }
        match a {
            Ok(row) => Ok(annotation_response(row)),
            Err(e) => Err(e),
        }
    }

    /// The comments of a project (or of one node) as responses, or the
    /// store's error.
    pub fn list_comments(&self, project_id: &str, node_id: Option<&str>) -> (r: Result<Vec<AnnotationResponse>, AppError>)
        ensures
            exists|a: Result<Vec<CommentRow>, AppError>|
                #[trigger] self.workspace_store().gives_comments(project_id@, opt_str(node_id), a) && match a {
                    Ok(rows) => (r matches Ok(cs) && annotations_of(rows@, cs@)),
                    Err(e) => r == Err::<Vec<AnnotationResponse>, AppError>(e),
                },
    {
        let a = self.workspace_repo.list_comments(project_id, node_id);
        let ghost ag = a;
        proof {
            assert(self.workspace_store().gives_comments(project_id@, opt_str(node_id), ag));
        }
        match a {
            Ok(rows) => Ok(annotation_responses(rows)),
            Err(e) => Err(e),
        }
    }

    /// The C4 view of a project as a response, or the store's error.
    pub fn get_c4_view(&self, project_id: &str, level: u8) -> (r: Result<C4ViewResponse, AppError>)
        ensures
            exists|a: Result<C4View, AppError>|
                #[trigger] self.workspace_store().gives_c4_view(project_id@, level, a) && match a {
                    Ok(v) => (r matches Ok(c) && c4_of(v, c)),
                    Err(e) => r == Err::<C4ViewResponse, AppError>(e),
                },
    {
        let a = self.workspace_repo.get_c4_view(project_id, level);
        let ghost ag = a;
        proof {
            assert(self.workspace_store().gives_c4_view(project_id@, level, ag));
        }
        match a {
            Ok(v) => Ok(c4_view_response(v)),
            Err(e) => Err(e),
        }
    }
}

// ── Analysis and export ─────────────────────────────────────────────────────

/// Who and when of an exported view.
#[derive(Debug, Clone)]
pub struct ExportMetadata {
    pub project_id: String,
    pub generated_at: String,
}

/// The analysis and export use cases: a data source, the graph store, a
/// read-only query port and a clock.
pub struct AnalysisService<A, G, Q, C> {
    analysis_repo: A,
    graph_repo: G,
    query_port: Q,
    clock: C,
}

/// The message refusing an export format that is neither `json` nor `png`.
pub open spec fn invalid_format_message(format: Seq<char>) -> Seq<char> {
    "Invalid export format '"@ + format + "'. Supported: 'json', 'png'."@
}

impl<A, G, Q, C: Clock> AnalysisService<A, G, Q, C> {
    /// A service over a data source, the graph store, a query port and a
    /// clock.
    pub fn new(analysis_repo: A, graph_repo: G, query_port: Q, clock: C) -> (r: Self)
        ensures
            r.analysis_store() == analysis_repo,
            r.graph_store() == graph_repo,
            r.query_part() == query_port,
            r.clock_part() == clock,
    {
        AnalysisService { analysis_repo, graph_repo, query_port, clock }
    }

    /// The analysis data source, as a spec value.
    pub closed spec fn analysis_store(&self) -> A {
        self.analysis_repo
    }

    /// The graph store, as a spec value.
    pub closed spec fn graph_store(&self) -> G {
        self.graph_repo
    }

    /// The read-only query port, as a spec value.
    pub closed spec fn query_part(&self) -> Q {
        self.query_port
    }

    /// The clock, as a spec value.
    pub closed spec fn clock_part(&self) -> C {
        self.clock
    }

    /// The analysis data source.
    pub fn analysis_repo(&self) -> (r: &A)
        ensures
            *r == self.analysis_store(),
    {
        &self.analysis_repo
    }

    /// The graph store.
    pub fn graph_repo(&self) -> (r: &G)
        ensures
            *r == self.graph_store(),
    {
        &self.graph_repo
    }

    /// The read-only query port.
    pub fn query_port(&self) -> (r: &Q)
        ensures
            *r == self.query_part(),
    {
        &self.query_port
    }

    /// The clock.
    pub fn clock(&self) -> (r: &C)
        ensures
            *r == self.clock_part(),
    {
        &self.clock
    }

    /// Checks the requested export format before anything is read.
    pub fn check_export_format(&self, format: &str) -> (r: Result<(), AppError>)
        ensures
            format@ == "json"@ ==> r is Ok,
            format@ == "png"@ ==> (r matches Err(AppError::Internal(m))
                && m@ == "PNG export is handled by the frontend using html-to-image. Use the useExport hook."@),
            format@ != "json"@ && format@ != "png"@ ==> (r matches Err(AppError::Internal(m)) && m@ == invalid_format_message(
                format@,
            )),
    {
        proof {
            reveal_strlit("json");
            reveal_strlit("png");
            assert("json"@[0] != "png"@[0]);
        }
        if str_eq(format, "json") {
            Ok(())
        } else if str_eq(format, "png") {
            Err(AppError::Internal("PNG export is handled by the frontend using html-to-image. Use the useExport hook.".to_owned()))
        } else {
            let mut m = String::new();
            append_str(&mut m, "Invalid export format '");
            append_str(&mut m, format);
            append_str(&mut m, "'. Supported: 'json', 'png'.");
            Err(AppError::Internal(m))
        }
    }

    /// The metadata of an export of `project_id`, stamped with the clock.
    pub fn export_metadata(&self, project_id: &str) -> (r: ExportMetadata)
        ensures
            r.project_id@ == project_id@,
            self.clock_part().gives_time(r.generated_at@),
    {
        ExportMetadata { project_id: project_id.to_owned(), generated_at: self.clock.now() }
    }
}

/// `v` is an empty JSON array.
pub open spec fn is_empty_array(v: JsonValue) -> bool {
    v matches JsonValue::Array(items) && items@.len() == 0
}

/// `v` is the member named `key` whose value is an empty array.
pub open spec fn is_empty_member(m: (String, JsonValue), key: Seq<char>) -> bool {
    m.0@ == key && is_empty_array(m.1)
}

/// `v` is the member named `key` whose value is the text `text`.
pub open spec fn is_text_member(m: (String, JsonValue), key: Seq<char>, text: Seq<char>) -> bool {
    &&& m.0@ == key
    &&& m.1 matches JsonValue::Text(t) && t@ == text
}

/// `v` is the graph with no nodes and no edges: `{"edges": [], "nodes": []}`.
pub open spec fn is_empty_graph(v: JsonValue) -> bool {
    &&& v matches JsonValue::Object(members)
    &&& members@.len() == 2
    &&& is_empty_member(members@[0], "edges"@)
    &&& is_empty_member(members@[1], "nodes"@)
}

/// `v` is the graph exported for a project with no cached graph: no nodes,
/// no edges, the project's id and the generation time, members sorted by
/// key.
pub open spec fn is_fallback_graph(v: JsonValue, project_id: Seq<char>, generated_at: Seq<char>) -> bool {
    &&& v matches JsonValue::Object(members)
    &&& members@.len() == 4
    &&& is_empty_member(members@[0], "edges"@)
    &&& is_text_member(members@[1], "generated_at"@, generated_at)
    &&& is_empty_member(members@[2], "nodes"@)
    &&& is_text_member(members@[3], "project_id"@, project_id)
}

fn empty_array_member(key: &str) -> (r: (String, JsonValue))
    ensures
        is_empty_member(r, key@),
{
    (key.to_owned(), JsonValue::Array(Vec::new()))
}

/// The graph data of an export: the cached graph text as JSON, or the empty
/// graph when that text is not JSON; with no cached graph, the empty graph
/// with the project's id and the generation time.
pub fn export_graph_data(cached: Option<&str>, project_id: &str, generated_at: &str) -> (r: JsonValue)
    ensures
        match cached {
            Some(t) => match json_value(t@) {
                Some(v) => r == v,
                None => is_empty_graph(r),
            },
            None => is_fallback_graph(r, project_id@, generated_at@),
        },
{
    match cached {
        Some(t) => match parse_json(t) {
            Some(v) => v,
            None => {
                let mut members: Vec<(String, JsonValue)> = Vec::new();
                members.push(empty_array_member("edges"));
                members.push(empty_array_member("nodes"));
                JsonValue::Object(members)
            },
        },
        None => {
            let mut members: Vec<(String, JsonValue)> = Vec::new();
            members.push(empty_array_member("edges"));
            members.push(("generated_at".to_owned(), JsonValue::Text(generated_at.to_owned())));
            members.push(empty_array_member("nodes"));
            members.push(("project_id".to_owned(), JsonValue::Text(project_id.to_owned())));
            JsonValue::Object(members)
        },
    }
}

/// A cached list of insights (cycles or hotspots) as JSON: the text parsed,
/// or an empty array when it is not JSON.
pub fn cached_insight_list(text: &str) -> (r: JsonValue)
    ensures
        match json_value(text@) {
            Some(v) => r == v,
            None => is_empty_array(r),
        },
{
    match parse_json(text) {
        Some(v) => v,
        None => JsonValue::Array(Vec::new()),
    }
}

} // verus!
