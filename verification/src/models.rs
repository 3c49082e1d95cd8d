//! Domain models shared by the scanner, the graph layer, the analyses and the
//! AI context layer.

use vstd::prelude::*;

verus! {

/// Kind of a flat symbol, used for metrics and symbol-level analysis.
#[derive(Debug, Clone, Copy, PartialEq, Eq, Structural)]
pub enum SymbolKind {
    Class,
    Function,
    ArrowFunction,
    Method,
    Interface,
    TypeAlias,
    Enum,
    Variable,
    Const,
    Struct,
    Impl,
    Unknown,
}

impl Default for SymbolKind {
    fn default() -> (r: Self)
        ensures
            r == SymbolKind::Unknown,
    {
        SymbolKind::Unknown
    }
}

/// Kind of an outline item (UI/AI oriented, separate from `SymbolKind`).
#[derive(Debug, Clone, Copy, PartialEq, Eq, Structural)]
pub enum OutlineItemKind {
    Class,
    Function,
    Method,
    Interface,
    Type,
    Enum,
    Const,
    Variable,
    Module,
    Field,
    Struct,
    Impl,
    Unknown,
}

/// Hierarchical outline item of a source file.
#[derive(Debug)]
pub struct OutlineItem {
    pub id: String,
    pub file_id: String,
    pub name: String,
    pub kind: OutlineItemKind,
    pub line_start: u32,
    pub line_end: u32,
    pub column_start: Option<u32>,
    pub column_end: Option<u32>,
    pub children: Vec<OutlineItem>,
}

/// Classification of a lexical/binding declaration.
#[derive(Debug, Clone, Copy, PartialEq, Eq, Structural)]
pub enum LexicalValueKind {
    Const,
    ArrowFunction,
    Function,
}

impl Default for LexicalValueKind {
    fn default() -> (r: Self)
        ensures
            r == LexicalValueKind::Const,
    {
        LexicalValueKind::Const
    }
}

/// Kinds of cross-symbol references.
#[derive(Debug, Clone, Copy, PartialEq, Eq, Structural)]
pub enum ReferenceKind {
    Import,
    Export,
    Call,
    TypeRef,
}

/// Half-open byte range plus 1-based line / 0-based column positions.
#[derive(Debug, Clone, Copy, PartialEq, Eq, Structural)]
pub struct Range {
    pub start_byte: usize,
    pub end_byte: usize,
    pub start_line: u32,
    pub start_col: u32,
    pub end_line: u32,
    pub end_col: u32,
}

/// A single cross-symbol reference observed during one parse pass.
#[derive(Debug, Clone, PartialEq, Eq)]
pub struct Reference {
    pub file_id: String,
    pub kind: ReferenceKind,
    pub target_name: String,
    pub range: Range,
}

/// Flat symbol record.
#[derive(Debug, Clone)]
pub struct SymbolInfo {
    pub id: String,
    pub name: String,
    pub kind: SymbolKind,
    pub file_id: String,
    pub line_start: u32,
    pub line_end: u32,
    pub exports: bool,
}

/// A scanned file with its symbols.
#[derive(Debug, Clone)]
pub struct FileInfo {
    pub id: String,
    pub path: String,
    pub name: String,
    pub extension: String,
    pub symbols: Vec<SymbolInfo>,
    pub lines: u32,
}

/// File metadata as stored for a project (no symbols).
#[derive(Debug, Clone)]
pub struct FileMeta {
    pub id: String,
    pub path: String,
    pub name: String,
    pub extension: String,
    pub lines: u32,
}

/// An import edge observed in a source file.
#[derive(Debug, Clone)]
pub struct ImportInfo {
    pub id: String,
    pub source_file_id: String,
    pub target_file_id: Option<String>,
    pub target_module: Option<String>,
    pub imports: Vec<String>,
    pub is_default: bool,
    pub is_type: bool,
}

/// Aggregated output of a single parse pass.
#[derive(Debug)]
pub struct ParseResult {
    pub symbols: Vec<SymbolInfo>,
    pub imports: Vec<ImportInfo>,
    pub outline: Vec<OutlineItem>,
    pub lexical_kind: LexicalValueKind,
    pub references: Vec<Reference>,
}

impl ParseResult {
    /// True when the result carries no symbols, imports, outline or references
    /// and keeps the default lexical kind.
    pub open spec fn is_empty_result(&self) -> bool {
        &&& self.symbols@.len() == 0
        &&& self.imports@.len() == 0
        &&& self.outline@.len() == 0
        &&& self.references@.len() == 0
        &&& self.lexical_kind == LexicalValueKind::Const
    }
}

impl Default for ParseResult {
    fn default() -> (r: Self)
        ensures
            r.is_empty_result(),
    {
        ParseResult {
            symbols: Vec::new(),
            imports: Vec::new(),
            outline: Vec::new(),
            lexical_kind: LexicalValueKind::Const,
            references: Vec::new(),
        }
    }
}

/// Role of a node in the dependency graph.
#[derive(Debug, Clone, Copy, PartialEq, Eq, Structural)]
pub enum NodeType {
    Component,
    Route,
    Service,
    Repository,
    Model,
    Util,
    Config,
    Test,
    External,
    Unknown,
}

impl Default for NodeType {
    fn default() -> (r: Self)
        ensures
            r == NodeType::Unknown,
    {
        NodeType::Unknown
    }
}

/// A node of the dependency graph (one per file).
#[derive(Debug, Clone)]
pub struct GraphNode {
    pub id: String,
    pub label: String,
    pub path: String,
    pub node_type: NodeType,
    pub symbol_count: usize,
}

/// A directed import edge of the dependency graph.
#[derive(Debug, Clone)]
pub struct GraphEdge {
    pub id: String,
    pub source: String,
    pub target: String,
    pub imports: Vec<String>,
}

/// A dependency graph of a project.
#[derive(Debug, Clone)]
pub struct GraphData {
    pub nodes: Vec<GraphNode>,
    pub edges: Vec<GraphEdge>,
    pub project_id: String,
    pub generated_at: String,
}

/// A node reference returned by dependency queries.
#[derive(Debug, Clone)]
pub struct NodeRef {
    pub id: String,
    pub source: String,
    pub target: String,
    pub imports: Vec<String>,
}

impl NodeRef {
    /// Create a new NodeRef from its parts.
    pub fn new(id: String, source: String, target: String, imports: Vec<String>) -> (r: Self)
        ensures
            r.id == id,
            r.source == source,
            r.target == target,
            r.imports == imports,
    {
        NodeRef { id, source, target, imports }
    }
}

/// Lifecycle status of a scan.
#[derive(Debug, Clone, Copy, PartialEq, Eq, Structural)]
pub enum ScanStatus {
    Idle,
    Scanning,
    BuildingGraph,
    Ready,
    Error,
    Cancelled,
}

impl Default for ScanStatus {
    fn default() -> (r: Self)
        ensures
            r == ScanStatus::Idle,
    {
        ScanStatus::Idle
    }
}

/// Outcome of a project scan.
#[derive(Debug, Clone)]
pub struct ScanResult {
    pub project_id: String,
    pub project_name: String,
    pub root_path: String,
    pub files_count: usize,
    pub symbols_count: usize,
    pub imports_count: usize,
    pub files: Vec<FileInfo>,
    pub scan_duration_ms: u64,
    pub status: ScanStatus,
    pub error: Option<String>,
}

/// Persisted project metadata (without files).
#[derive(Debug, Clone)]
pub struct ProjectMeta {
    pub project_id: String,
    pub project_name: String,
    pub root_path: String,
    pub files_count: usize,
    pub symbols_count: usize,
    pub imports_count: usize,
    pub scan_duration_ms: u64,
    pub status: ScanStatus,
    pub error: Option<String>,
}

/// Explanation of a code node produced by an AI provider.
#[derive(Debug, Clone)]
pub struct NodeExplanation {
    pub node_id: String,
    pub summary: String,
    pub details: String,
    pub dependencies_note: Option<String>,
    pub role: String,
}

/// Author role of a chat message.
#[derive(Debug, Clone, Copy, PartialEq, Eq, Structural)]
pub enum ChatRole {
    User,
    Assistant,
    System,
}

/// A chat message.
#[derive(Debug, Clone)]
pub struct ChatMessage {
    pub id: String,
    pub role: ChatRole,
    pub content: String,
    pub timestamp: String,
}

/// Reply of an AI provider to a chat.
#[derive(Debug, Clone)]
pub struct ChatResponse {
    pub message: ChatMessage,
    pub referenced_nodes: Option<Vec<String>>,
}

/// AI provider configuration.
#[derive(Debug, Clone)]
pub struct AIConfig {
    pub provider: String,
    pub api_key: String,
    pub model: String,
    pub endpoint: Option<String>,
}

/// Workspace identity.
#[derive(Debug, Clone, PartialEq, Eq)]
pub struct WorkspaceMeta {
    pub id: String,
    pub name: String,
    pub created_at: String,
}

/// Workspace to project attachment.
#[derive(Debug, Clone, PartialEq, Eq)]
pub struct WorkspaceProjectMeta {
    pub workspace_id: String,
    pub project_id: String,
}

/// Snapshot record.
#[derive(Debug, Clone, PartialEq, Eq)]
pub struct SnapshotMeta {
    pub id: String,
    pub project_id: String,
    pub workspace_id: Option<String>,
    pub label: String,
    pub created_at: String,
    pub payload_json: Option<String>,
}

/// Comment / annotation record.
#[derive(Debug, Clone, PartialEq, Eq)]
pub struct CommentMeta {
    pub id: String,
    pub project_id: String,
    pub node_id: String,
    pub author: String,
    pub kind: String,
    pub text: String,
    pub created_at: String,
}

/// C4 view of a project (level 1 = system context, level 2 = container).
#[derive(Debug, Clone)]
pub struct C4View {
    pub level: u8,
    pub systems: Option<Vec<String>>,
    pub containers: Option<Vec<String>>,
    pub warning: Option<String>,
}

} // verus!
