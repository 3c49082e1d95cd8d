use engine::ai::{
    chat_prompt, explain_prompt, explanation_from_reply, AIProviderResolver, AIService, AnthropicProvider, ProviderFactory,
    ResolvedProvider,
};
use engine::context::{ContextBuilder, MAX_CONTEXT_BYTES, MAX_DEPENDENTS, MAX_DEPS};
use engine::errors::{map_error_response, AppError};
use engine::models::{
    AIConfig, ChatMessage, ChatRole, FileInfo, GraphData, GraphEdge, GraphNode, NodeType, OutlineItem, OutlineItemKind,
};
use engine::ports::{Clock, MockIdGen};

const DEFAULT_ANTHROPIC_ENDPOINT: &str = "https://api.anthropic.com/v1/messages";

#[test]
fn provider_creation() {
    let provider = AnthropicProvider::new("placeholder", Some("model-3"));
    assert_eq!(provider.model, "model-3");
    assert_eq!(provider.endpoint, DEFAULT_ANTHROPIC_ENDPOINT);
}

#[test]
fn provider_creation_with_custom_endpoint() {
    let provider = AnthropicProvider::with_endpoint(
        "placeholder",
        Some("model-3"),
        Some("https://gateway.example.test/v1/messages"),
    );

    assert_eq!(provider.endpoint, "https://gateway.example.test/v1/messages");
}

#[test]
fn provider_defaults_model_and_empty_endpoint() {
    let provider = AnthropicProvider::with_endpoint("k", None, Some(""));
    assert_eq!(provider.model, "minimax");
    assert_eq!(provider.endpoint, DEFAULT_ANTHROPIC_ENDPOINT);
    assert_eq!(provider.api_key, "k");
}

#[test]
fn error_mapping_invalid_api_key() {
    let err = map_error_response(401, "unauthorized");
    assert!(matches!(err, AppError::InvalidApiKey));
}

#[test]
fn error_mapping_403_forbidden() {
    let err = map_error_response(403, "access forbidden");
    assert!(matches!(err, AppError::InvalidApiKey));
}

#[test]
fn error_mapping_rate_limited() {
    let err = map_error_response(429, "rate limited");
    assert!(matches!(err, AppError::AIRateLimited));
}

#[test]
fn error_mapping_token_limit() {
    let err = map_error_response(400, "maximum_token_limit_exceeded");
    assert!(matches!(err, AppError::AITokenLimit));
}

#[test]
fn error_mapping_400_without_token_keyword() {
    let err = map_error_response(400, "bad_request");
    assert!(matches!(err, AppError::AIUnavailable(_)));
}

#[test]
fn error_mapping_server_error() {
    let err = map_error_response(500, "server error");
    assert!(matches!(err, AppError::AIUnavailable(_)));
}

#[test]
fn error_mapping_server_error_message_names_status() {
    let err = map_error_response(503, "down");
    assert_eq!(err, AppError::AIUnavailable("HTTP 503".to_string()));
}

fn config(provider: &str) -> AIConfig {
    AIConfig {
        provider: provider.to_string(),
        api_key: "test-key".to_string(),
        model: "large-model-20250514".to_string(),
        endpoint: None,
    }
}

#[test]
fn resolves_anthropic_provider() {
    let factory = ProviderFactory;
    let provider = factory.resolve(&config("anthropic")).unwrap();

    assert!(matches!(provider, ResolvedProvider::Anthropic(_)));
}

#[test]
fn keeps_custom_as_compatibility_alias_during_migration() {
    let factory = ProviderFactory;
    let provider = factory.resolve(&config("custom")).unwrap();

    assert!(matches!(provider, ResolvedProvider::Anthropic(_)));
}

#[test]
fn rejects_unknown_provider() {
    let factory = ProviderFactory;
    let err = factory.resolve(&config("unknown")).unwrap_err();

    assert!(matches!(err, AppError::AIUnavailable(_)));
}

#[test]
fn resolved_provider_carries_configuration() {
    let factory = ProviderFactory;
    let mut c = config("anthropic");
    c.endpoint = Some("https://proxy.test/v1".to_string());
    match factory.resolve(&c).unwrap() {
        ResolvedProvider::Anthropic(p) => {
            assert_eq!(p.api_key, "test-key");
            assert_eq!(p.model, "large-model-20250514");
            assert_eq!(p.endpoint, "https://proxy.test/v1");
        }
    }
    let err = factory.resolve(&config("openai")).unwrap_err();
    assert_eq!(err, AppError::AIUnavailable("Unsupported AI provider: openai".to_string()));
}

fn node(id: &str, label: &str, path: &str) -> GraphNode {
    GraphNode { id: id.into(), label: label.into(), path: path.into(), node_type: NodeType::Unknown, symbol_count: 1 }
}

fn make_graph_with_deps(num_deps: usize, num_dependents: usize) -> GraphData {
    let mut nodes = vec![node("main", "main.rs", "src/main.rs")];
    let mut edges: Vec<GraphEdge> = vec![];
    for i in 0..num_deps {
        let id = format!("dep{}", i);
        nodes.push(node(&id, &format!("dep{}.rs", i), &format!("src/dep{}.rs", i)));
        edges.push(GraphEdge { id: format!("e-dep-{}", i), source: "main".into(), target: id, imports: vec![] });
    }
    for i in 0..num_dependents {
        let id = format!("dependent{}", i);
        nodes.push(node(&id, &format!("dependent{}.rs", i), &format!("src/dependent{}.rs", i)));
        edges.push(GraphEdge { id: format!("e-dnt-{}", i), source: id, target: "main".into(), imports: vec![] });
    }
    GraphData { nodes, edges, project_id: "test".into(), generated_at: "now".into() }
}

#[test]
fn context_respects_8kb_limit() {
    let large_code = "x".repeat(20_000);
    let graph = make_graph_with_deps(0, 0);
    let context = ContextBuilder::build_node_context(&large_code, "test.rs", &graph, "main");
    assert!(context.len() <= MAX_CONTEXT_BYTES, "Context {} bytes exceeds limit {}", context.len(), MAX_CONTEXT_BYTES);
}

#[test]
fn context_includes_top_5_deps() {
    let graph = make_graph_with_deps(10, 0);
    let context = ContextBuilder::build_node_context("fn main() {}", "main.rs", &graph, "main");

    assert!(context.contains("dep0"), "dep0 should appear");
    assert!(context.contains("dep4"), "dep4 should appear (5th dep)");
    assert!(!context.contains("dep5"), "dep5 should NOT appear (6th dep)");
    assert!(!context.contains("dep9"), "dep9 should NOT appear");

    let dep_count = (0..10).filter(|i| context.contains(&format!("dep{}", i))).count();
    assert_eq!(dep_count, MAX_DEPS);
}

#[test]
fn context_includes_top_3_dependents() {
    let graph = make_graph_with_deps(0, 10);
    let context = ContextBuilder::build_node_context("fn main() {}", "main.rs", &graph, "main");

    assert!(context.contains("dependent0"), "dependent0 should appear");
    assert!(context.contains("dependent2"), "dependent2 should appear (3rd)");
    assert!(!context.contains("dependent3"), "dependent3 should NOT appear (4th)");

    let dep_count = (0..10).filter(|i| context.contains(&format!("dependent{}", i))).count();
    assert_eq!(dep_count, MAX_DEPENDENTS);
}

#[test]
fn context_includes_node_metadata() {
    let graph = make_graph_with_deps(0, 0);
    let context = ContextBuilder::build_node_context("fn main() {}", "main.rs", &graph, "main");

    assert!(context.contains("src/main.rs"), "File path should appear");
    assert!(context.contains("Dependencias"), "Deps section header should appear");
    assert!(context.contains("Dependientes"), "Dependents section header should appear");
    assert!(context.contains("Codigo"), "Code section should appear");
}

fn leaf(id: &str, name: &str, kind: OutlineItemKind, line_start: u32, line_end: u32) -> OutlineItem {
    OutlineItem {
        id: id.into(),
        file_id: "file-1".into(),
        name: name.into(),
        kind,
        line_start,
        line_end,
        column_start: None,
        column_end: None,
        children: vec![],
    }
}

#[test]
fn outline_semantic_context_includes_hierarchy() {
    let graph = make_graph_with_deps(0, 0);
    let mut class_item = leaf("outline:file-1:class:1:30:UserService", "UserService", OutlineItemKind::Class, 1, 30);
    class_item.column_start = Some(0);
    class_item.column_end = Some(0);
    class_item.children = vec![leaf("outline:file-1:method:5:8:getUser", "getUser", OutlineItemKind::Method, 5, 8)];
    let outline = vec![
        class_item,
        leaf("outline:file-1:function:32:40:parseData", "parseData", OutlineItemKind::Function, 32, 40),
    ];

    let context = ContextBuilder::build_node_context_with_outline(
        "// some source",
        "src/services/UserService.ts",
        &graph,
        "file-1",
        &outline,
    );

    assert!(context.contains("UserService"), "class name should appear");
    assert!(context.contains("getUser"), "method name should appear");
    assert!(context.contains("parseData"), "function name should appear");
    assert!(context.contains("Outline"), "outline section should appear");
    assert!(context.contains("src/services/UserService.ts"));
}

#[test]
fn outline_semantic_context_respects_byte_cap() {
    let graph = make_graph_with_deps(0, 0);
    let mut outline = vec![];
    for i in 0..200u32 {
        outline.push(leaf(&format!("item-{}", i), &format!("VeryLongSymbolName{}", i), OutlineItemKind::Function, i * 10, i * 10 + 8));
    }

    let context = ContextBuilder::build_node_context_with_outline("", "large.ts", &graph, "file-1", &outline);

    assert!(context.len() <= MAX_CONTEXT_BYTES, "Context {} bytes exceeds cap {}", context.len(), MAX_CONTEXT_BYTES);
}

#[test]
fn outline_semantic_context_falls_back_when_empty() {
    let graph = make_graph_with_deps(0, 0);
    let source = "fn main() {\n    println!(\"hello\");\n}";

    let context = ContextBuilder::build_node_context_with_outline(source, "src/main.rs", &graph, "main", &vec![]);

    assert!(context.contains("Codigo") || context.contains("fn main"), "Should fall back to source code excerpt");
    assert!(!context.contains("**Outline:**"), "No outline section for empty outline");
}

#[test]
fn extract_range_respects_boundaries() {
    let source = "line1\nline2\nline3\nline4\nline5\n";

    let extracted = ContextBuilder::extract_range(source, 2, 4);
    assert_eq!(extracted, "line2\nline3\nline4\n");

    let single = ContextBuilder::extract_range(source, 3, 3);
    assert_eq!(single, "line3\n");

    let invalid = ContextBuilder::extract_range(source, 5, 2);
    assert_eq!(invalid, "");

    let zero = ContextBuilder::extract_range(source, 0, 3);
    assert_eq!(zero, "");

    let past_end = ContextBuilder::extract_range(source, 3, 100);
    assert!(past_end.contains("line3"));
}

#[test]
fn extract_range_past_end_keeps_the_tail() {
    let source = "a\nb\nc";
    assert_eq!(ContextBuilder::extract_range(source, 2, 100), "b\nc");
    assert_eq!(ContextBuilder::extract_range(source, 4, 5), "");
}

#[test]
fn outline_context_shows_dependencies_and_dependents() {
    let graph = make_graph_with_deps(3, 2);
    let outline = vec![leaf("file-1:class:1:10:X", "X", OutlineItemKind::Class, 1, 10)];

    let context = ContextBuilder::build_node_context_with_outline("// code", "test.ts", &graph, "main", &outline);

    assert!(context.contains("dep0"), "dep0 should appear");
    assert!(context.contains("dependent0"), "dependent0 should appear");
    assert!(context.contains("Dependencias (3)"), "deps count should appear");
    assert!(context.contains("Dependientes (2)"), "dependents count should appear");
}

#[test]
fn chat_context_stays_within_cap_and_names_question() {
    let graph = make_graph_with_deps(2, 1);
    let files = [("src/main.rs", "fn main() {}"), ("src/dep0.rs", "pub fn dep() {}")];
    let context = ContextBuilder::build_chat_context(&files, &graph, "what does main do?");
    assert!(context.contains("what does main do?"));
    assert!(context.len() <= MAX_CONTEXT_BYTES);
}

#[test]
fn explain_prompt_lists_dependencies() {
    let prompt = explain_prompt("fn a() {}", &["b.rs".to_string(), "c.rs".to_string()]);
    assert!(prompt.contains("fn a() {}"));
    assert!(prompt.contains("b.rs, c.rs"));
}

#[test]
fn chat_prompt_contains_history_and_context() {
    let messages = vec![ChatMessage {
        id: "1".into(),
        role: ChatRole::User,
        content: "hola".into(),
        timestamp: "t".into(),
    }];
    let prompt = chat_prompt(&messages, "ctx");
    assert!(prompt.contains("hola"));
    assert!(prompt.contains("ctx"));
}

#[test]
fn explanation_summary_is_first_line() {
    let e = explanation_from_reply("n1", "Resumen corto\nDetalle largo");
    assert_eq!(e.node_id, "n1");
    assert_eq!(e.summary, "Resumen corto");
    assert_eq!(e.details, "Resumen corto\nDetalle largo");
}

struct FixedClock(&'static str);

impl Clock for FixedClock {
    fn now(&self) -> String {
        self.0.to_string()
    }
}

fn file_info(id: &str, path: &str) -> FileInfo {
    FileInfo { id: id.into(), path: path.into(), name: path.into(), extension: "rs".into(), symbols: vec![], lines: 1 }
}

fn service() -> AIService<ProviderFactory, FixedClock, MockIdGen, (), ()> {
    AIService::new(ProviderFactory, FixedClock("2026-06-10T12:00:00+00:00"), MockIdGen::new(), (), ())
}

#[test]
fn prepare_explain_context_returns_explain_context_with_node_id() {
    let svc = service();
    let graph = make_graph_with_deps(2, 1);
    let ctx = svc.prepare_explain_context(&file_info("main", "src/main.rs"), "fn main() {}", &graph, &vec![]);
    assert_eq!(ctx.node_id, "main");
    assert_eq!(ctx.file_info.path, "src/main.rs");
    assert!(!ctx.code_context.is_empty());
}

#[test]
fn prepare_explain_context_collects_dependencies_and_dependents() {
    let svc = service();
    let graph = make_graph_with_deps(7, 4);
    let ctx = svc.prepare_explain_context(&file_info("main", "src/main.rs"), "fn main() {}", &graph, &vec![]);
    assert_eq!(ctx.dependencies, vec!["dep0.rs", "dep1.rs", "dep2.rs", "dep3.rs", "dep4.rs"]);
    assert_eq!(ctx.dependents, vec!["dependent0.rs", "dependent1.rs", "dependent2.rs"]);
}

#[test]
fn prepare_explain_context_builds_code_context_with_outline() {
    let svc = service();
    let graph = make_graph_with_deps(0, 0);
    let outline = vec![leaf("o1", "Parser", OutlineItemKind::Struct, 1, 9)];
    let ctx = svc.prepare_explain_context(&file_info("main", "src/main.rs"), "struct Parser;", &graph, &outline);
    assert!(ctx.code_context.contains("Parser"));
    assert!(ctx.code_context.contains("Outline"));
}

#[test]
fn prepare_chat_context_returns_chat_context_with_single_user_message() {
    let mut svc = service();
    let graph = GraphData { nodes: vec![], edges: vec![], project_id: "p1".into(), generated_at: "2026-06-09T00:00:00Z".into() };
    let history = vec![ChatMessage {
        id: "msg-0".to_string(),
        role: ChatRole::User,
        content: "previous".to_string(),
        timestamp: "2026-06-09T00:00:00Z".to_string(),
    }];
    let file_contents = vec![("src/main.rs".to_string(), "fn main() {}".to_string())];

    let ctx = svc.prepare_chat_context(&file_contents, &graph, &history, "hello");

    assert!(!ctx.context.is_empty());
    assert_eq!(ctx.full_history.len(), 2, "should have exactly 2 messages");
    let new_msg = ctx.full_history.last().unwrap();
    assert_eq!(new_msg.content, "hello");
    assert_eq!(new_msg.role, ChatRole::User);
    assert_eq!(new_msg.timestamp, "2026-06-10T12:00:00+00:00");
    assert_eq!(new_msg.id, "00000000-0000-0000-0000-000000000000");
}

#[test]
fn prepare_chat_context_user_message_appears_exactly_once() {
    let mut svc = service();
    let graph = GraphData { nodes: vec![], edges: vec![], project_id: "p1".into(), generated_at: "2026-06-09T00:00:00Z".into() };

    let ctx = svc.prepare_chat_context(&[], &graph, &[], "only-once");

    let count = ctx.full_history.iter().filter(|m| m.content == "only-once").count();
    assert_eq!(count, 1, "user message must appear exactly once in full_history");
}

#[test]
fn prepare_chat_context_includes_prior_history() {
    let mut svc = service();
    let graph = GraphData { nodes: vec![], edges: vec![], project_id: "p1".into(), generated_at: "2026-06-09T00:00:00Z".into() };
    let prior = vec![
        ChatMessage { id: "msg-0".into(), role: ChatRole::User, content: "first".into(), timestamp: "2026-06-09T00:00:00Z".into() },
        ChatMessage {
            id: "msg-1".into(),
            role: ChatRole::Assistant,
            content: "response".into(),
            timestamp: "2026-06-09T00:01:00Z".into(),
        },
    ];

    let ctx = svc.prepare_chat_context(&[], &graph, &prior, "third");

    assert_eq!(ctx.full_history.len(), 3);
    assert_eq!(ctx.full_history[0].content, "first");
    assert_eq!(ctx.full_history[1].content, "response");
    assert_eq!(ctx.full_history[2].content, "third");
}

#[test]
fn prepare_chat_context_second_message_gets_next_id() {
    let mut svc = service();
    let graph = GraphData { nodes: vec![], edges: vec![], project_id: "p1".into(), generated_at: "g".into() };
    let _ = svc.prepare_chat_context(&[], &graph, &[], "one");
    let ctx = svc.prepare_chat_context(&[], &graph, &[], "two");
    assert_eq!(ctx.full_history[0].id, "00000000-0000-0001-0000-000000000000");
}
