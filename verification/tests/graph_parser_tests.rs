use std::sync::atomic::{AtomicUsize, Ordering};

use engine::commands::{
    file_name, is_excluded_dir, is_supported_extension, outline_for_file, scan_sources, DiscoveredFile, ParseFile,
    ScanFilesOutput,
};
use engine::graph::{infer_node_type, GraphBuilder, PathResolver, Resolution};
use engine::models::{
    FileInfo, ImportInfo, LexicalValueKind, NodeType, OutlineItem, OutlineItemKind, ParseResult, Range, Reference,
    ReferenceKind, SymbolInfo, SymbolKind,
};
use engine::parser::{LanguageParser, PythonParser};
use engine::registry::{CodeParser, ParserRegistry};
use engine::rust_parser::RustParser;
use engine::syntax::{parse_source, Grammar, SyntaxNode};
use engine::ts_parser::TypeScriptParser;

// ── Path resolution and graph building ──────────────────────────────────────

#[test]
fn resolve_relative_path() {
    let resolver = PathResolver::new("/project");
    let result = resolver.resolve("./utils", "src/services/UserService.ts");
    assert!(matches!(result, Resolution::Internal(_) | Resolution::Unresolved(_)));
}

#[test]
fn resolve_external_module() {
    let resolver = PathResolver::new("/project");
    let result = resolver.resolve("react", "App.tsx");
    assert_eq!(result, Resolution::External("react".to_string()));
}

#[test]
fn resolve_external_module_keeps_first_segment() {
    let resolver = PathResolver::new("/project");
    assert_eq!(resolver.resolve("@scope/pkg/sub", "a.ts"), Resolution::External("@scope".to_string()));
    assert_eq!(resolver.resolve("lodash/fp", "a.ts"), Resolution::External("lodash".to_string()));
}

#[test]
fn resolve_with_tsconfig_alias() {
    // No tsconfig could be read: the resolver keeps its defaults.
    let resolver = PathResolver::new("/project/src").with_tsconfig_json("");
    let result = resolver.resolve("@/components/Button", "src/pages/Home.tsx");
    assert!(matches!(result, Resolution::Internal(_) | Resolution::Unresolved(_)));
}

#[test]
fn tsconfig_paths_register_their_first_string_target() {
    let tsconfig = r#"{
        "compilerOptions": {
            "baseUrl": ".",
            "paths": {
                "@app/*": ["src/app/*", "other/*"],
                "@num/*": [3],
                "@empty/*": [],
                "@lib/*": "lib/*"
            }
        }
    }"#;
    let resolver = PathResolver::new("/nonexistent-root").with_tsconfig_json(tsconfig);
    assert_eq!(
        resolver.resolve("@app/button", "src/main.ts"),
        Resolution::Unresolved("src/app/button".to_string())
    );
    assert_eq!(resolver.resolve("@num/x", "src/main.ts"), Resolution::External("@num".to_string()));
    assert_eq!(resolver.resolve("@empty/x", "src/main.ts"), Resolution::External("@empty".to_string()));
    assert_eq!(resolver.resolve("@lib/x", "src/main.ts"), Resolution::External("@lib".to_string()));
}

#[test]
fn tsconfig_that_is_not_json_adds_no_alias() {
    let resolver = PathResolver::new("/nonexistent-root").with_tsconfig_json("{ compilerOptions: ");
    assert_eq!(resolver.resolve("@app/button", "src/main.ts"), Resolution::External("@app".to_string()));
}

#[test]
fn tsconfig_without_paths_adds_no_alias() {
    let resolver = PathResolver::new("/nonexistent-root").with_tsconfig_json(r#"{"compilerOptions": {"strict": true}}"#);
    assert_eq!(resolver.resolve("@app/button", "src/main.ts"), Resolution::External("@app".to_string()));
}

fn file(id: &str, path: &str, symbols: Vec<SymbolInfo>, lines: u32) -> FileInfo {
    let name = path.rsplit('/').next().unwrap().to_string();
    FileInfo { id: id.into(), path: path.into(), name, extension: "ts".into(), symbols, lines }
}

fn symbol(id: &str, name: &str, kind: SymbolKind, file_id: &str) -> SymbolInfo {
    SymbolInfo { id: id.into(), name: name.into(), kind, file_id: file_id.into(), line_start: 1, line_end: 20, exports: true }
}

fn import(id: &str, source: &str, target: Option<&str>, module: Option<&str>) -> ImportInfo {
    ImportInfo {
        id: id.into(),
        source_file_id: source.into(),
        target_file_id: target.map(|t| t.to_string()),
        target_module: module.map(|m| m.to_string()),
        imports: vec!["X".into()],
        is_default: false,
        is_type: false,
    }
}

#[test]
fn build_graph_with_three_files() {
    let files = vec![
        file("f1", "src/UserController.ts", vec![], 50),
        file("f2", "src/UserService.ts", vec![symbol("s1", "UserService", SymbolKind::Class, "f2")], 30),
        file("f3", "src/UserRepository.ts", vec![], 20),
    ];
    let imports = vec![import("i1", "f1", Some("f2"), None), import("i2", "f2", Some("f3"), None)];

    let builder = GraphBuilder::new("/project");
    let graph = builder.build(&files, &imports).unwrap();

    assert_eq!(graph.nodes.len(), 3);
    assert_eq!(graph.edges.len(), 2);
    assert_eq!(graph.edges[0].source, "f1");
    assert_eq!(graph.edges[0].target, "f2");
}

#[test]
fn build_graph_skips_unlinked_imports_and_targets_modules() {
    let files = vec![file("f1", "src/a.ts", vec![], 1)];
    let imports = vec![import("i1", "f1", None, None), import("i2", "f1", None, Some("react"))];
    let graph = GraphBuilder::new("/project").build(&files, &imports).unwrap();
    assert_eq!(graph.edges.len(), 1);
    assert_eq!(graph.edges[0].target, "react");
}

#[test]
fn infer_node_type_from_path() {
    let files = vec![
        file("c1", "src/components/Button.tsx", vec![symbol("s1", "Button", SymbolKind::Function, "c1")], 20),
        file("sv1", "src/services/AuthService.ts", vec![], 100),
    ];

    let builder = GraphBuilder::new("/project");
    let graph = builder.build(&files, &[]).unwrap();

    let button_node = graph.nodes.iter().find(|n| n.id == "c1").unwrap();
    assert_eq!(button_node.node_type, NodeType::Component);

    let auth_node = graph.nodes.iter().find(|n| n.id == "sv1").unwrap();
    assert_eq!(auth_node.node_type, NodeType::Service);
}

#[test]
fn infer_node_type_rules() {
    assert_eq!(infer_node_type("src/user.spec.ts", &[]), NodeType::Test);
    assert_eq!(infer_node_type("src/config/app.ts", &[]), NodeType::Config);
    assert_eq!(infer_node_type("src/misc/x.ts", &[]), NodeType::Unknown);
}

// ── Parsing ─────────────────────────────────────────────────────────────────

#[test]
fn parse_typescript_function() {
    let code = r#"
function calculateTotal(items) {
    return items.reduce(function(sum, item) { return sum + item; }, 0);
}
module.exports = { calculateTotal };
"#;
    let (symbols, imports) = CodeParser::parse_file("test.js", code, "js");

    assert!(!symbols.is_empty() || !imports.is_empty(), "Expected symbols or imports, got none");
}

#[test]
fn parse_rust_struct() {
    let code = r#"
pub struct UserRepository {
    db: Database,
}

impl UserRepository {
    pub fn find_by_id(&self, id: u64) -> Option<User> { None }
}
"#;
    let (symbols, _imports) = CodeParser::parse_file("lib.rs", code, "rs");

    assert!(symbols.iter().any(|s| s.name == "UserRepository"));
    assert!(symbols.iter().any(|s| s.kind == SymbolKind::Struct));
}

#[test]
fn parse_imports() {
    let code = r#"import { useState, useEffect } from "react";
import type { User } from "./types";
export default App;"#;
    let (_symbols, imports) = CodeParser::parse_file("App.tsx", code, "tsx");

    assert_eq!(imports.len(), 2);
    assert!(imports.iter().any(|i| i.target_module.as_deref() == Some("react")));
    assert!(imports.iter().any(|i| i.is_type));
}

#[test]
fn code_parser_ignores_unknown_extension() {
    let (symbols, imports) = CodeParser::parse_file("a.py", "def f(): pass", "py");
    assert!(symbols.is_empty() && imports.is_empty());
}

#[test]
fn python_stub_reports_python_metadata() {
    let parser = PythonParser::new();
    assert_eq!(parser.language_id(), "python");
    assert!(parser.supports("py"));
    assert!(!parser.supports("ts"));
    assert!(!parser.supports(""));
}

#[test]
fn python_stub_returns_empty_parse_result() {
    let parser = PythonParser::new();
    let result = parser.parse_all("import os\n", "stub.py", "file-py");
    assert!(result.symbols.is_empty());
    assert!(result.imports.is_empty());
    assert!(result.outline.is_empty());
    assert_eq!(result.lexical_kind, LexicalValueKind::Const);
    assert!(result.references.is_empty());
}

#[test]
fn unsupported_extension_returns_empty_result() {
    let registry = ParserRegistry::default();
    let result = registry.parse_file("test.xyz", "some code", "xyz", "file-xyz");
    assert!(result.symbols.is_empty());
    assert!(result.imports.is_empty());
    assert!(result.outline.is_empty());
}

#[test]
fn parser_for_extension_returns_supported_parsers() {
    let registry = ParserRegistry::default();
    assert!(registry.parser_for_extension("ts").is_some());
    assert!(registry.parser_for_extension("tsx").is_some());
    assert!(registry.parser_for_extension("rs").is_some());
    assert!(registry.parser_for_extension("xyz").is_none());
    assert!(registry.parser_for_extension("").is_none());
}

struct MinimalParser;

impl LanguageParser for MinimalParser {
    fn language_id(&self) -> &'static str {
        "minimal"
    }
    fn extensions(&self) -> &'static [&'static str] {
        &["min"]
    }
    fn parse_all(&self, _source: &str, _path: &str, _file_id: &str) -> ParseResult {
        ParseResult::default()
    }
}

struct ArrowAwareParser;

impl LanguageParser for ArrowAwareParser {
    fn language_id(&self) -> &'static str {
        "arrow-aware"
    }
    fn extensions(&self) -> &'static [&'static str] {
        &["awa"]
    }
    fn parse_all(&self, _source: &str, _path: &str, _file_id: &str) -> ParseResult {
        ParseResult { lexical_kind: LexicalValueKind::ArrowFunction, ..ParseResult::default() }
    }
    fn lexical_kind_for(&self, _node: &SyntaxNode, _src: &str) -> LexicalValueKind {
        LexicalValueKind::ArrowFunction
    }
}

fn ts_root(source: &str) -> SyntaxNode {
    parse_source(source, Grammar::TypeScript).expect("parse source")
}

#[test]
fn default_lexical_kind_for_returns_function() {
    let src = "const x = 1;";
    let node = ts_root(src);
    let parser = MinimalParser;
    assert_eq!(parser.lexical_kind_for(&node, src), LexicalValueKind::Function);
}

#[test]
fn default_extract_references_returns_empty_vec() {
    let src = "import { foo } from './bar';";
    let node = ts_root(src);
    let parser = MinimalParser;
    assert!(parser.extract_references(&node, src).is_empty());
}

#[test]
fn default_methods_invocable_via_dyn_trait_object() {
    let src = "const x = 1;";
    let node = ts_root(src);
    let parser: Box<dyn LanguageParser> = Box::new(MinimalParser);
    assert_eq!(parser.lexical_kind_for(&node, src), LexicalValueKind::Function);
    assert!(parser.extract_references(&node, src).is_empty());
}

#[test]
fn minimal_parser_compatible_with_registry_dispatch() {
    let mut registry = ParserRegistry::new();
    registry.register(Box::new(MinimalParser));
    let result = registry.parse_file("hello.min", "any source", "min", "file-min");
    assert!(result.symbols.is_empty());
    assert!(result.imports.is_empty());
    assert!(result.outline.is_empty());
    assert_eq!(result.lexical_kind, LexicalValueKind::Const);
    assert!(result.references.is_empty());
}

#[test]
fn override_lexical_kind_is_observed() {
    let src = "const C = () => 1;";
    let node = ts_root(src);
    let parser = ArrowAwareParser;
    assert_eq!(parser.lexical_kind_for(&node, src), LexicalValueKind::ArrowFunction);
    let result = parser.parse_all(src, "c.awa", "file-awa");
    assert_eq!(result.lexical_kind, LexicalValueKind::ArrowFunction);
    let _import_ref = Reference {
        file_id: "file-awa".to_string(),
        kind: ReferenceKind::Import,
        target_name: "x".to_string(),
        range: Range { start_byte: 0, end_byte: 1, start_line: 1, start_col: 0, end_line: 1, end_col: 1 },
    };
}

fn ts_result(code: &str, extension: &str) -> ParseResult {
    let parser = TypeScriptParser::new();
    parser.parse_all(code, &format!("test.{extension}"), "file-ts")
}

#[test]
fn parse_export_function() {
    let code = "export function greet(name: string): string {\n    return `Hello, ${name}`;\n}";
    let result = ts_result(code, "ts");
    assert!(result.symbols.iter().any(|s| s.name == "greet") && result.outline.iter().any(|o| o.name == "greet"));
}

#[test]
fn parse_export_class_with_methods() {
    let code = "export class OrderService {\n    create(order: Order): void {}\n    cancel(id: string): void {}\n}";
    let result = ts_result(code, "ts");
    assert!(result.symbols.iter().any(|s| s.name == "OrderService"));
    let class_outline = result.outline.iter().find(|o| o.name == "OrderService").expect("class outline");
    assert!(!class_outline.children.is_empty());
    let method_names: Vec<_> = class_outline.children.iter().map(|c| c.name.clone()).collect();
    assert!(method_names.contains(&"create".to_string()) || method_names.contains(&"cancel".to_string()));
}

#[test]
fn parse_export_const_arrow_function() {
    let code = "export const Component001 = (props: Props) => {\n    return null;\n}";
    let result = ts_result(code, "ts");
    assert!(result.symbols.iter().any(|s| s.name == "Component001"));
    assert!(result.outline.iter().any(|o| o.name == "Component001"));
}

#[test]
fn parse_export_const_object() {
    let code = "export const CONFIG = { key: 'value', debug: true }";
    let result = ts_result(code, "ts");
    assert!(result.symbols.iter().any(|s| s.name == "CONFIG"));
}

#[test]
fn parse_export_interface() {
    let code = "export interface UserProfile {\n    id: string;\n    name: string;\n}";
    let result = ts_result(code, "ts");
    assert!(result.symbols.iter().any(|s| s.name == "UserProfile"));
    assert!(result.outline.iter().any(|o| o.name == "UserProfile"));
}

#[test]
fn parse_export_default_function() {
    let code = "export default function App() { return null; }";
    let result = ts_result(code, "tsx");
    assert!(result.symbols.iter().any(|s| s.name == "App"));
    assert!(result.outline.iter().any(|o| o.name == "App"));
}

#[test]
fn parse_export_type_alias() {
    let code = "export type Result<T> = { data: T; error: null } | { data: null; error: string }";
    let result = ts_result(code, "ts");
    assert!(result.symbols.iter().any(|s| s.name == "Result"));
}

#[test]
fn parse_mixed_exported_and_local() {
    let code = "interface BaseConfig { url: string }\nexport class Service {}\nexport function parse() {}";
    let result = ts_result(code, "ts");
    let names: Vec<_> = result.symbols.iter().map(|s| s.name.clone()).collect();
    assert!(names.len() >= 3, "got {:?}", names);
    assert!(names.contains(&"BaseConfig".to_string()));
    assert!(names.contains(&"Service".to_string()));
    assert!(names.contains(&"parse".to_string()));
}

#[test]
fn parse_imports_still_work_after_export_handling() {
    let code = "import { useState } from 'react';\nimport type { User } from './types';";
    let result = ts_result(code, "ts");
    assert_eq!(result.imports.len(), 2);
    assert!(result.imports.iter().any(|i| i.target_module.as_deref() == Some("react")));
    assert!(result.imports.iter().any(|i| i.is_type));
}

#[test]
fn parse_tsx_with_import_and_export_default() {
    let code = "import React, { useState } from 'react';\nexport default function App() { return <div />; }";
    let result = ts_result(code, "tsx");
    assert!(!result.outline.is_empty() || !result.imports.is_empty());
}

#[test]
fn parse_ts_line_ranges_populated() {
    let result = ts_result("export class Foo { method() {} }\n", "ts");
    for item in &result.outline {
        assert!(item.line_start > 0);
        assert!(item.line_end >= item.line_start);
    }
}

#[test]
fn parse_ts_class_with_methods() {
    let code = "\nclass UserService {\n    constructor() {}\n    getUser(id: string): User | null { return null; }\n    saveUser(user: User): void {}\n}\n";
    let result = ts_result(code, "ts");
    assert!(result.symbols.iter().any(|s| s.name == "UserService"));
    let class_item = result.outline.iter().find(|o| o.name == "UserService").expect("class in outline");
    assert_eq!(class_item.kind, OutlineItemKind::Class);
    assert!(!class_item.children.is_empty());
}

#[test]
fn parse_ts_interface_with_properties() {
    let code = "\ninterface UserDto {\n    id: string;\n    name: string;\n    email: string;\n}\n";
    let result = ts_result(code, "ts");
    assert!(result.symbols.iter().any(|s| s.name == "UserDto"));
    assert!(result.outline.iter().any(|o| o.name == "UserDto"));
}

#[test]
fn parse_ts_function_and_enum() {
    let code = "\nfunction parseUser(input: string): User {\n    return {} as User;\n}\nenum Status { Active, Inactive, Pending }\n";
    let result = ts_result(code, "ts");
    assert!(result.symbols.iter().any(|s| s.name == "parseUser"));
    assert!(result.symbols.iter().any(|s| s.name == "Status"));
    assert!(result.outline.iter().any(|o| o.name == "parseUser"));
    assert!(result.outline.iter().any(|o| o.name == "Status"));
}

#[test]
fn parse_ts_imports() {
    let code = "import { useState } from \"react\";\nimport type { User } from \"./types\";";
    let result = ts_result(code, "ts");
    assert_eq!(result.imports.len(), 2);
    assert!(result.imports.iter().any(|i| i.target_module.as_deref() == Some("react")));
    assert!(result.imports.iter().any(|i| i.is_type));
}

#[test]
fn parse_ts_line_ranges_are_populated() {
    let result = ts_result("class Foo {\n    method() {}\n}\n", "ts");
    for item in &result.outline {
        assert!(item.line_start > 0);
        assert!(item.line_end >= item.line_start);
    }
}

#[test]
fn parse_js_arrow_functions_not_in_outline() {
    let result = ts_result("const fn = () => {};", "js");
    assert!(result.symbols.iter().any(|s| s.name == "fn"));
}

#[test]
fn lexical_kind_function_declaration_is_function() {
    let result = ts_result("function foo() {}\n", "ts");
    assert_eq!(result.lexical_kind, LexicalValueKind::Function);
}

#[test]
fn lexical_kind_arrow_field_is_arrow_function() {
    let code = "class Handler {\n  handler = (req: unknown) => req;\n}\n";
    let result = ts_result(code, "ts");
    assert_eq!(result.lexical_kind, LexicalValueKind::ArrowFunction);
    let handler = result.symbols.iter().find(|s| s.name == "handler").expect("handler symbol");
    assert_eq!(handler.kind, SymbolKind::ArrowFunction);
}

#[test]
fn reference_import_emits_target_name() {
    let result = ts_result("import { foo } from './bar';", "ts");
    assert!(result.references.iter().any(|r| r.kind == ReferenceKind::Import && r.target_name == "foo"));
}

#[test]
fn reference_import_default_emits_target_name() {
    let result = ts_result("import React from 'react';", "ts");
    assert!(result.references.iter().any(|r| r.kind == ReferenceKind::Import && r.target_name == "React"));
}

#[test]
fn reference_export_emits_target_name() {
    let result = ts_result("export function greet() {}\n", "ts");
    assert!(result.references.iter().any(|r| r.kind == ReferenceKind::Export && r.target_name == "greet"));
}

#[test]
fn typescript_reference_file_id_is_populated() {
    let result = ts_result("import { foo } from './bar';", "ts");
    for r in &result.references {
        assert!(!r.file_id.is_empty());
    }
}

#[test]
fn single_pass_populates_all_ir_categories() {
    let code = "\nimport { foo } from './bar';\nexport const Card = ({title}) => <div>{title}</div>;\nexport function greet() {}\n";
    let result = ts_result(code, "tsx");
    assert!(!result.imports.is_empty());
    assert!(!result.symbols.is_empty());
    assert!(!result.outline.is_empty());
    assert!(!result.references.is_empty());
    assert_eq!(result.lexical_kind, LexicalValueKind::ArrowFunction);
    assert!(result.references.iter().any(|r| r.kind == ReferenceKind::Import && r.target_name == "foo"));
    assert!(result.references.iter().any(|r| r.kind == ReferenceKind::Export && r.target_name == "Card"));
}

fn rust_result(code: &str) -> ParseResult {
    let parser = RustParser::new();
    parser.parse_all(code, "test.rs", "file-rs")
}

#[test]
fn reference_use_item_last_segment() {
    let result = rust_result("use std::collections::HashMap;\n");
    assert!(result.references.iter().any(|r| r.kind == ReferenceKind::Import && r.target_name == "HashMap"));
}

#[test]
fn reference_use_glob_emits_empty_target_name() {
    let result = rust_result("use std::collections::*;\n");
    let glob_ref = result.references.iter().find(|r| r.kind == ReferenceKind::Import).expect("import reference");
    assert_eq!(glob_ref.target_name, "");
}

#[test]
fn reference_use_self_super_crate_emit_empty_target_name() {
    for code in &["use self::foo;\n", "use super::bar;\n", "use crate::baz;\n"] {
        let result = rust_result(code);
        for r in &result.references {
            if r.kind == ReferenceKind::Import {
                assert_eq!(r.target_name, "", "source `{}`", code);
            }
        }
    }
}

#[test]
fn rust_reference_file_id_is_populated() {
    let result = rust_result("use std::collections::HashMap;\n");
    for r in &result.references {
        assert!(!r.file_id.is_empty());
    }
}

#[test]
fn lexical_kind_function_item_is_function() {
    assert_eq!(rust_result("fn foo() {}\n").lexical_kind, LexicalValueKind::Function);
}

#[test]
fn lexical_kind_struct_item_is_const() {
    assert_eq!(rust_result("struct S;\n").lexical_kind, LexicalValueKind::Const);
}

#[test]
fn parse_rust_struct_with_impl_methods() {
    let code = "\npub struct UserRepository {\n    db: Database,\n}\n\nimpl UserRepository {\n    pub fn find_by_id(&self, id: u64) -> Option<User> { None }\n    pub fn save(&self, user: User) -> Result<(), Error> { Ok(()) }\n}\n";
    let result = rust_result(code);
    assert!(result.symbols.iter().any(|s| s.name == "UserRepository"));
    assert!(!result.outline.is_empty());
    assert!(result.outline.iter().any(|o| o.name == "UserRepository"));
    if let Some(impl_outline) = result.outline.iter().find(|o| o.kind == OutlineItemKind::Impl) {
        assert!(!impl_outline.children.is_empty());
        let method_names: Vec<_> = impl_outline.children.iter().map(|c| c.name.clone()).collect();
        assert!(method_names.contains(&"find_by_id".to_string()) || method_names.contains(&"save".to_string()));
    }
}

#[test]
fn parse_rust_enum_and_function() {
    let code = "\nenum Status { Active, Inactive, Pending }\n\npub fn parse_status(input: &str) -> Status { Status::Active }\n";
    let result = rust_result(code);
    assert!(result.symbols.iter().any(|s| s.name == "Status"));
    assert!(result.symbols.iter().any(|s| s.name == "parse_status"));
    assert!(result.outline.iter().any(|o| o.name == "Status"));
    assert!(result.outline.iter().any(|o| o.name == "parse_status"));
}

#[test]
fn parse_rust_use_declarations() {
    let result = rust_result("\nuse std::collections::HashMap;\nuse crate::models::User;\n");
    assert_eq!(result.imports.len(), 2);
    assert!(result.imports.iter().any(|i| i.target_module.as_deref() == Some("std")));
}

#[test]
fn parse_rust_line_ranges_populated() {
    let result = rust_result("struct Foo {}\nfn bar() {}\n");
    for item in &result.outline {
        assert!(item.line_start > 0);
        assert!(item.line_end >= item.line_start);
    }
}

#[test]
fn parse_rust_module_item() {
    let result = rust_result("mod utils {\n    pub fn helper() {}\n}\n");
    assert!(result.outline.iter().any(|o| o.name == "utils"));
}

// ── Scan commands ───────────────────────────────────────────────────────────

#[test]
fn commands_module_types_exist() {
    let _: Option<ScanFilesOutput> = None;
    let _: Option<&dyn ParseFile> = None;
}

struct CountingRegistry {
    calls: AtomicUsize,
}

impl ParseFile for CountingRegistry {
    fn parse_file(&self, _path: &str, _source: &str, _extension: &str, file_id: &str) -> ParseResult {
        self.calls.fetch_add(1, Ordering::SeqCst);
        ParseResult {
            symbols: vec![],
            imports: vec![],
            outline: vec![OutlineItem {
                id: "out-1".into(),
                file_id: file_id.into(),
                name: "TestFunc".into(),
                kind: OutlineItemKind::Function,
                line_start: 1,
                line_end: 3,
                column_start: None,
                column_end: None,
                children: vec![],
            }],
            ..Default::default()
        }
    }
}

#[test]
fn outline_for_file_calls_registry_exactly_once() {
    let registry = CountingRegistry { calls: AtomicUsize::new(0) };
    let file_id = "file-outline-test";
    let path = "/tmp/engine_cmd_test/Test.ts";
    let ext = "ts";
    let source = "export function TestFunc() {}";

    let outline = outline_for_file(&registry, file_id, path, ext, source);

    assert_eq!(registry.calls.load(Ordering::SeqCst), 1);
    assert!(!outline.is_empty());
}

fn discovered(path: &str, rel: &str, ext: &str) -> DiscoveredFile {
    DiscoveredFile { path: path.into(), relative_path: rel.into(), extension: ext.into(), size_bytes: 100 }
}

#[test]
fn scan_files_calls_registry_exactly_n_times() {
    let files = vec![
        discovered("/tmp/engine_cmd_test/a.ts", "src/a.ts", "ts"),
        discovered("/tmp/engine_cmd_test/b.ts", "src/b.ts", "ts"),
        discovered("/tmp/engine_cmd_test/c.rs", "src/c.rs", "rs"),
    ];
    let registry = CountingRegistry { calls: AtomicUsize::new(0) };
    let sources = vec![Some("const a = 1;".to_string()), Some("const b = 2;".to_string()), Some("fn c() {}".to_string())];

    let output: ScanFilesOutput = scan_sources(&registry, &files, sources);

    assert_eq!(output.registry_call_count, 3);
    assert_eq!(output.file_infos.len(), 3);
    assert_eq!(registry.calls.load(Ordering::SeqCst), 3);
}

#[test]
fn scan_files_propagates_symbols_and_imports() {
    let files = vec![discovered("/tmp/engine_cmd_test/a.ts", "src/service.ts", "ts")];
    let registry = ParserRegistry::new();
    let sources = vec![Some("import { x } from './x';\nexport class Service {}\n".to_string())];

    let output = scan_sources(&registry, &files, sources);

    assert_eq!(output.file_infos.len(), 1);
    assert_eq!(output.registry_call_count, 1);
    assert_eq!(output.file_infos[0].path, "src/service.ts");
    assert_eq!(output.file_infos[0].name, "a.ts");
    assert!(output.file_infos[0].symbols.iter().any(|s| s.name == "Service"));
    assert_eq!(output.all_imports.len(), 1);
    assert_eq!(output.outlines.len(), 1);
}

#[test]
fn scan_sources_counts_unreadable_files() {
    let files = vec![discovered("/x/a.ts", "a.ts", "ts"), discovered("/x/b.ts", "b.ts", "ts")];
    let registry = CountingRegistry { calls: AtomicUsize::new(0) };
    let output = scan_sources(&registry, &files, vec![None, Some("x".to_string())]);
    assert_eq!(output.files_failed, 1);
    assert_eq!(output.files_read, 1);
    assert_eq!(output.registry_call_count, 1);
    assert_eq!(output.file_infos.len(), 1);
}

#[test]
fn discovery_rules() {
    assert!(is_excluded_dir("node_modules"));
    assert!(is_excluded_dir(".git"));
    assert!(!is_excluded_dir("src"));
    assert!(is_supported_extension("tsx"));
    assert!(is_supported_extension("rs"));
    assert!(!is_supported_extension("py"));
    assert_eq!(file_name("src/a/b.ts"), "b.ts");
    assert_eq!(file_name("b.ts"), "b.ts");
}

#[test]
fn rust_impl_block_is_outlined_with_its_methods() {
    let code = "pub struct UserRepository {\n    db: Database,\n}\n\nimpl UserRepository {\n    pub fn find_by_id(&self, id: u64) -> Option<User> { None }\n    pub fn save(&self, user: User) -> Result<(), Error> { Ok(()) }\n}\n";
    let result = rust_result(code);
    assert!(result.symbols.iter().any(|s| s.name == "UserRepository" && s.kind == SymbolKind::Struct));
    let imp = result.outline.iter().find(|o| o.kind == OutlineItemKind::Impl).expect("impl in outline");
    assert_eq!(imp.name, "UserRepository");
    let methods: Vec<(String, OutlineItemKind)> = imp.children.iter().map(|c| (c.name.clone(), c.kind)).collect();
    assert_eq!(
        methods,
        vec![("find_by_id".to_string(), OutlineItemKind::Method), ("save".to_string(), OutlineItemKind::Method)]
    );
}

#[test]
fn default_registry_holds_the_typescript_rust_and_python_parsers_in_order() {
    let registry = ParserRegistry::new();
    for ext in ["ts", "tsx", "js", "jsx"] {
        assert_eq!(registry.parser_for_extension(ext).unwrap().language_id(), TypeScriptParser::new().language_id());
    }
    assert_eq!(registry.parser_for_extension("rs").unwrap().language_id(), RustParser::new().language_id());
    assert_eq!(registry.parser_for_extension("py").unwrap().language_id(), PythonParser::new().language_id());
}

#[test]
fn a_registered_parser_does_not_take_over_handled_extensions() {
    let mut registry = ParserRegistry::new();
    registry.register(Box::new(PythonParser::new()));
    assert_eq!(registry.parser_for_extension("ts").unwrap().language_id(), TypeScriptParser::new().language_id());
    registry.register(Box::new(MinimalParser));
    assert_eq!(registry.parser_for_extension("min").unwrap().language_id(), MinimalParser.language_id());
}
