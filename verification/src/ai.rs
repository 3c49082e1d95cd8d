//! The AI layer: provider configuration and resolution, the prompts sent to
//! a provider and the interpretation of its replies, and the application
//! service that prepares explanation and chat contexts.

use vstd::prelude::*;
use crate::context::{
    chat_context, find_node, ContextBuilder,
    linked, node_context, outline_context_body, pair_views, truncation, MAX_CONTEXT_BYTES, MAX_DEPENDENTS, MAX_DEPS,
};
use crate::errors::AppError;
use crate::models::{AIConfig, ChatMessage, ChatRole, FileInfo, GraphData, GraphNode, NodeExplanation, OutlineItem, SymbolInfo};
use crate::ports::{Clock, IdGenerator};
use crate::text::{append_str, chars_of, str_eq};

verus! {

broadcast use vstd::seq_lib::group_seq_properties;

// ── Provider ────────────────────────────────────────────────────────────────

/// The endpoint used when none (or an empty one) is configured.
pub open spec fn default_endpoint() -> Seq<char> {
    "https://api.anthropic.com/v1/messages"@
}

/// The model used when none is given.
pub open spec fn default_model() -> Seq<char> {
    "minimax"@
}

/// Connection settings of the Anthropic messages API.
#[derive(Debug, Clone)]
pub struct AnthropicProvider {
    pub api_key: String,
    pub model: String,
    pub endpoint: String,
}

/// The model a provider is built with.
pub open spec fn model_choice(model: Option<&str>) -> Seq<char> {
    match model {
        Some(m) => m@,
        None => default_model(),
    }
}

/// The endpoint a provider is built with: the given one unless absent or
/// empty.
pub open spec fn endpoint_choice(endpoint: Option<&str>) -> Seq<char> {
    match endpoint {
        Some(e) => if e@.len() > 0 { e@ } else { default_endpoint() },
        None => default_endpoint(),
    }
}

/// The endpoint a configuration selects.
pub open spec fn config_endpoint(config: AIConfig) -> Seq<char> {
    match config.endpoint {
        Some(e) => if e@.len() > 0 { e@ } else { default_endpoint() },
        None => default_endpoint(),
    }
}

impl AnthropicProvider {
    /// A provider for the default endpoint.
    pub fn new(api_key: &str, model: Option<&str>) -> (r: Self)
        ensures
            r.api_key@ == api_key@,
            r.model@ == model_choice(model),
            r.endpoint@ == default_endpoint(),
    {
        Self::with_endpoint(api_key, model, None)
    }

    /// A provider for `endpoint`; an absent or empty endpoint falls back to
    /// the default one.
    pub fn with_endpoint(api_key: &str, model: Option<&str>, endpoint: Option<&str>) -> (r: Self)
        ensures
            r.api_key@ == api_key@,
            r.model@ == model_choice(model),
            r.endpoint@ == endpoint_choice(endpoint),
    {
        let model_text = match model {
            Some(m) => m.to_owned(),
            None => "minimax".to_owned(),
        };
        let endpoint_text = match endpoint {
            Some(e) => {
                if e.is_empty() {
                    "https://api.anthropic.com/v1/messages".to_owned()
                } else {
                    e.to_owned()
                }
            },
            None => "https://api.anthropic.com/v1/messages".to_owned(),
        };
        AnthropicProvider { api_key: api_key.to_owned(), model: model_text, endpoint: endpoint_text }
    }

    /// A provider built from an AI configuration.
    pub fn from_config(config: &AIConfig) -> (r: Self)
        ensures
            r.api_key@ == config.api_key@,
            r.model@ == config.model@,
            r.endpoint@ == config_endpoint(*config),
    {
        let endpoint = match &config.endpoint {
            Some(e) => Some(e.as_str()),
            None => None,
        };
        Self::with_endpoint(config.api_key.as_str(), Some(config.model.as_str()), endpoint)
    }
}

/// The provider adapters the application can dispatch to.
#[derive(Debug)]
pub enum ResolvedProvider {
    Anthropic(AnthropicProvider),
}

/// Chooses a provider adapter for a configuration.
pub trait AIProviderResolver {
    type Provider;

    fn resolve(&self, config: &AIConfig) -> Result<Self::Provider, AppError>;
}

/// The resolver used in production.
#[derive(Debug, Default, Clone, Copy)]
pub struct ProviderFactory;

/// The provider names served by the Anthropic adapter ("custom" is kept as
/// an alias).
pub open spec fn served_by_anthropic(provider: Seq<char>) -> bool {
    provider == "anthropic"@ || provider == "custom"@
}

impl AIProviderResolver for ProviderFactory {
    type Provider = ResolvedProvider;

    fn resolve(&self, config: &AIConfig) -> (r: Result<ResolvedProvider, AppError>)
        ensures
            served_by_anthropic(config.provider@) ==> (r matches Ok(ResolvedProvider::Anthropic(p)) && p.api_key@
                == config.api_key@ && p.model@ == config.model@ && p.endpoint@ == config_endpoint(*config)),
            !served_by_anthropic(config.provider@) ==> (r matches Err(AppError::AIUnavailable(m)) && m@
                == "Unsupported AI provider: "@ + config.provider@),
    {
        if str_eq(config.provider.as_str(), "anthropic") || str_eq(config.provider.as_str(), "custom") {
            Ok(ResolvedProvider::Anthropic(AnthropicProvider::from_config(config)))
        } else {
            let mut m = String::new();
            append_str(&mut m, "Unsupported AI provider: ");
            append_str(&mut m, config.provider.as_str());
            assert(m@ =~= "Unsupported AI provider: "@ + config.provider@);
            Err(AppError::AIUnavailable(m))
        }
    }
}

// ── Prompts and replies ─────────────────────────────────────────────────────

/// Items joined by `sep`.
pub open spec fn join_with(items: Seq<Seq<char>>, sep: Seq<char>) -> Seq<char>
    decreases items.len(),
{
    if items.len() == 0 {
        Seq::empty()
    } else if items.len() == 1 {
        items[0]
    } else {
        join_with(items.drop_last(), sep) + sep + items.last()
    }
}

/// Views of a list of strings.
pub open spec fn string_views(v: Seq<String>) -> Seq<Seq<char>> {
    v.map_values(|x: String| x@)
}

pub(crate) fn join_strings(items: &[String], sep: &str) -> (r: String)
    ensures
        r@ == join_with(string_views(items@), sep@),
{
    let ghost v = string_views(items@);
    let mut r = String::new();
    if items.len() == 0 {
        return r;
    }
    append_str(&mut r, items[0].as_str());
    proof {
        assert(v.take(1) =~= seq![v[0]]);
        assert(r@ =~= join_with(v.take(1), sep@));
    }
    let mut k: usize = 1;
    while k < items.len()
        invariant
            1 <= k <= items@.len(),
            v == string_views(items@),
            r@ == join_with(v.take(k as int), sep@),
        decreases items@.len() - k,
    {
        append_str(&mut r, sep);
        append_str(&mut r, items[k].as_str());
        proof {
            assert(v.take(k + 1).drop_last() =~= v.take(k as int));
            assert(v.take(k + 1).last() == items@[k as int]@);
        }
        k = k + 1;
    }
    assert(v.take(k as int) =~= v);
    r
}

/// The prompt asking a provider to explain a file.
pub open spec fn explain_prompt_text(code_context: Seq<char>, dependencies: Seq<Seq<char>>) -> Seq<char> {
    "Explicá este archivo de código de forma concisa:\n\n"@ + code_context + "\n\nDependencias: "@ + join_with(
        dependencies,
        ", "@,
    ) + "\n\nRespondé en español con:\n1. Resumen de 1-2 frases\n2. Rol en la arquitectura\n3. Detalles relevantes"@
}

/// The prompt asking a provider to explain a file.
pub fn explain_prompt(code_context: &str, dependencies: &[String]) -> (r: String)
    ensures
        r@ == explain_prompt_text(code_context@, string_views(dependencies@)),
{
    let mut r = String::new();
    append_str(&mut r, "Explicá este archivo de código de forma concisa:\n\n");
    append_str(&mut r, code_context);
    append_str(&mut r, "\n\nDependencias: ");
    let deps = join_strings(dependencies, ", ");
    append_str(&mut r, deps.as_str());
    append_str(
        &mut r,
        "\n\nRespondé en español con:\n1. Resumen de 1-2 frases\n2. Rol en la arquitectura\n3. Detalles relevantes",
    );
    assert(r@ =~= explain_prompt_text(code_context@, string_views(dependencies@)));
    r
}

/// The name of a chat role, as displayed.
pub open spec fn role_name(r: ChatRole) -> Seq<char> {
    match r {
        ChatRole::User => "user"@,
        ChatRole::Assistant => "assistant"@,
        ChatRole::System => "system"@,
    }
}

/// The name of a chat role, as displayed.
pub fn role_str(r: ChatRole) -> (s: &'static str)
    ensures
        s@ == role_name(r),
{
    match r {
        ChatRole::User => "user",
        ChatRole::Assistant => "assistant",
        ChatRole::System => "system",
    }
}

/// One message of the chat history: "role: content".
pub open spec fn history_line(m: ChatMessage) -> Seq<char> {
    role_name(m.role) + ": "@ + m.content@
}

/// The history lines of a chat.
pub open spec fn history_lines(ms: Seq<ChatMessage>) -> Seq<Seq<char>> {
    ms.map_values(|m: ChatMessage| history_line(m))
}

/// The prompt continuing a chat.
pub open spec fn chat_prompt_text(messages: Seq<ChatMessage>, context: Seq<char>) -> Seq<char> {
    "Contexto del proyecto:\n"@ + context + "\n\nHistorial:\n"@ + join_with(history_lines(messages), "\n"@)
        + "\n\nRespondé en español basándote únicamente en el código proporcionado."@
}

/// The prompt continuing a chat.
pub fn chat_prompt(messages: &[ChatMessage], context: &str) -> (r: String)
    ensures
        r@ == chat_prompt_text(messages@, context@),
{
    let mut lines: Vec<String> = Vec::new();
    let mut k: usize = 0;
    while k < messages.len()
        invariant
            k <= messages@.len(),
            lines@.len() == k,
            forall|q: int| 0 <= q < k ==> (#[trigger] lines@[q])@ == history_line(messages@[q]),
        decreases messages@.len() - k,
    {
        let m = &messages[k];
        let mut l = String::new();
        append_str(&mut l, role_str(m.role));
        append_str(&mut l, ": ");
        append_str(&mut l, m.content.as_str());
        assert(l@ =~= history_line(*m));
        lines.push(l);
        k = k + 1;
    }
    assert(string_views(lines@) =~= history_lines(messages@));
    let history = join_strings(lines.as_slice(), "\n");
    let mut r = String::new();
    append_str(&mut r, "Contexto del proyecto:\n");
    append_str(&mut r, context);
    append_str(&mut r, "\n\nHistorial:\n");
    append_str(&mut r, history.as_str());
    append_str(&mut r, "\n\nRespondé en español basándote únicamente en el código proporcionado.");
    assert(r@ =~= chat_prompt_text(messages@, context@));
    r
}

/// Index of the first line break of `s`, or its length.
pub open spec fn first_break(s: Seq<char>) -> int
    decreases s.len(),
{
    if s.len() == 0 || s[0] == '\n' {
        0
    } else {
        1 + first_break(s.drop_first())
    }
}

/// The first line of `s`, as `str::lines` yields it: up to the first line
/// break, without a carriage return before it; empty for an empty text.
pub open spec fn first_line(s: Seq<char>) -> Seq<char> {
    let l = s.take(first_break(s));
    if l.len() > 0 && l.last() == '\r' {
        l.drop_last()
    } else {
        l
    }
}

proof fn lemma_first_break_bounds(s: Seq<char>)
    ensures
        0 <= first_break(s) <= s.len(),
        first_break(s) < s.len() ==> s[first_break(s)] == '\n',
        forall|k: int| 0 <= k < first_break(s) ==> s[k] != '\n',
    decreases s.len(),
{
    if s.len() > 0 && s[0] != '\n' {
        lemma_first_break_bounds(s.drop_first());
        assert forall|k: int| 0 <= k < first_break(s) implies s[k] != '\n' by {
            if k > 0 {
                assert(s[k] == s.drop_first()[k - 1]);
            }
        }
    }
}

/// The explanation of `node_id` made of a provider's reply: its first line
/// as the summary, the whole reply as the details.
pub fn explanation_from_reply(node_id: &str, reply: &str) -> (r: NodeExplanation)
    ensures
        r.node_id@ == node_id@,
        r.summary@ == first_line(reply@),
        r.details@ == reply@,
        r.dependencies_note is None,
        r.role@ == "Módulo del proyecto"@,
{
    let cs = chars_of(reply);
    let mut p: usize = 0;
    while p < cs.len() && cs[p] != '\n'
        invariant
            p <= cs@.len(),
            forall|k: int| 0 <= k < p ==> cs@[k] != '\n',
        decreases cs@.len() - p,
    {
        p = p + 1;
    }
    proof {
        lemma_first_break_bounds(reply@);
        let b = first_break(reply@);
        if b < p {
            assert(cs@[b] == '\n');
        }
        if p < b {
            assert(cs@[p as int] != '\n');
        }
        assert(b == p);
    }
    let mut end = p;
    if end > 0 && cs[end - 1] == '\r' {
        end = end - 1;
    }
    let mut summary = String::new();
    let mut k: usize = 0;
    while k < end
        invariant
            end <= cs@.len(),
            k <= end,
            summary@ == cs@.take(k as int),
        decreases end - k,
    {
        crate::text::push_char(&mut summary, cs[k]);
        assert(cs@.take(k + 1) =~= cs@.take(k as int).push(cs@[k as int]));
        k = k + 1;
    }
    proof {
        let l = reply@.take(p as int);
        if l.len() > 0 && l.last() == '\r' {
            assert(l.drop_last() =~= cs@.take(end as int));
        } else {
            assert(l =~= cs@.take(end as int));
        }
    }
    NodeExplanation {
        node_id: node_id.to_owned(),
        summary,
        details: reply.to_owned(),
        dependencies_note: None,
        role: "Módulo del proyecto".to_owned(),
    }
}

// ── Application service ─────────────────────────────────────────────────────

/// Context prepared for explaining a node.
#[derive(Debug, Clone)]
pub struct ExplainContext {
    /// Node identifier.
    pub node_id: String,
    /// File information for the node.
    pub file_info: FileInfo,
    /// Compact context built from the file content, graph and outline.
    pub code_context: String,
    /// Labels of up to five dependencies.
    pub dependencies: Vec<String>,
    /// Labels of up to three dependents.
    pub dependents: Vec<String>,
}

/// Context prepared for continuing a chat.
#[derive(Debug, Clone)]
pub struct ChatContext {
    /// Compact context built from file contents, graph and question.
    pub context: String,
    /// The whole history, including the new user message (pushed once).
    pub full_history: Vec<ChatMessage>,
}

/// `b` carries the same values as `a`.
pub open spec fn same_symbol(a: SymbolInfo, b: SymbolInfo) -> bool {
    &&& a.id@ == b.id@
    &&& a.name@ == b.name@
    &&& a.kind == b.kind
    &&& a.file_id@ == b.file_id@
    &&& a.line_start == b.line_start
    &&& a.line_end == b.line_end
    &&& a.exports == b.exports
}

/// `b` carries the same values as `a`.
pub open spec fn same_file_info(a: FileInfo, b: FileInfo) -> bool {
    &&& a.id@ == b.id@
    &&& a.path@ == b.path@
    &&& a.name@ == b.name@
    &&& a.extension@ == b.extension@
    &&& a.lines == b.lines
    &&& a.symbols@.len() == b.symbols@.len()
    &&& forall|k: int| 0 <= k < a.symbols@.len() ==> same_symbol(#[trigger] a.symbols@[k], b.symbols@[k])
}

/// `b` carries the same values as `a`.
pub open spec fn same_message(a: ChatMessage, b: ChatMessage) -> bool {
    &&& a.id@ == b.id@
    &&& a.role == b.role
    &&& a.content@ == b.content@
    &&& a.timestamp@ == b.timestamp@
}

fn copy_symbol(s: &SymbolInfo) -> (r: SymbolInfo)
    ensures
        same_symbol(*s, r),
{
    SymbolInfo {
        id: s.id.clone(),
        name: s.name.clone(),
        kind: s.kind,
        file_id: s.file_id.clone(),
        line_start: s.line_start,
        line_end: s.line_end,
        exports: s.exports,
    }
}

/// A copy of `f` with the same values.
pub fn copy_file_info(f: &FileInfo) -> (r: FileInfo)
    ensures
        same_file_info(*f, r),
{
    let mut symbols: Vec<SymbolInfo> = Vec::new();
    let mut k: usize = 0;
    while k < f.symbols.len()
        invariant
            k <= f.symbols@.len(),
            symbols@.len() == k,
            forall|q: int| 0 <= q < k ==> same_symbol(#[trigger] f.symbols@[q], symbols@[q]),
        decreases f.symbols@.len() - k,
    {
        symbols.push(copy_symbol(&f.symbols[k]));
        k = k + 1;
    }
    FileInfo {
        id: f.id.clone(),
        path: f.path.clone(),
        name: f.name.clone(),
        extension: f.extension.clone(),
        symbols,
        lines: f.lines,
    }
}

fn copy_message(m: &ChatMessage) -> (r: ChatMessage)
    ensures
        same_message(*m, r),
{
    ChatMessage { id: m.id.clone(), role: m.role, content: m.content.clone(), timestamp: m.timestamp.clone() }
}

/// Labels of nodes.
pub open spec fn labels(ns: Seq<GraphNode>) -> Seq<Seq<char>> {
    ns.map_values(|n: GraphNode| n.label@)
}

fn linked_labels(graph: &GraphData, id: &str, outgoing: bool, limit: usize) -> (r: Vec<String>)
    ensures
        string_views(r@) == labels(linked(graph.edges@, graph.nodes@, id@, outgoing, limit as nat)),
{
    let idx = crate::context::linked_nodes(graph, id, outgoing, limit);
    let ghost full = linked(graph.edges@, graph.nodes@, id@, outgoing, limit as nat);
    let mut out: Vec<String> = Vec::new();
    let mut k: usize = 0;
    while k < idx.len()
        invariant
            k <= idx@.len(),
            idx@.len() == full.len(),
            out@.len() == k,
            forall|q: int| 0 <= q < idx@.len() ==> (#[trigger] idx@[q]) < graph.nodes@.len()
                && graph.nodes@[idx@[q] as int] == full[q],
            forall|q: int| 0 <= q < k ==> (#[trigger] out@[q])@ == full[q].label@,
        decreases idx@.len() - k,
    {
        out.push(graph.nodes[idx[k]].label.clone());
        k = k + 1;
    }
    assert(string_views(out@) =~= labels(full));
    out
}

/// The AI application service: prepares the contexts handed to a provider.
pub struct AIService<R, C, I, S, G> {
    resolver: R,
    clock: C,
    id_gen: I,
    scan_repo: S,
    graph_repo: G,
}

impl<R, C, I, S, G> AIService<R, C, I, S, G> {
    /// A service over its resolver, clock, id generator and stores.
    pub fn new(resolver: R, clock: C, id_gen: I, scan_repo: S, graph_repo: G) -> (r: Self)
        ensures
            r.resolver() == resolver,
            r.clock_part() == clock,
            r.scan_store() == scan_repo,
            r.graph_store() == graph_repo,
    {
        AIService { resolver, clock, id_gen, scan_repo, graph_repo }
    }

    /// The resolver, as a spec value.
    pub closed spec fn resolver(&self) -> R {
        self.resolver
    }

    /// The resolver the service dispatches with.
    pub fn resolver_ref(&self) -> (r: &R)
        ensures
            *r == self.resolver(),
    {
        &self.resolver
    }

    /// The clock, as a spec value.
    pub closed spec fn clock_part(&self) -> C {
        self.clock
    }

    /// The identifier generator, as a spec value.
    pub closed spec fn id_part(&self) -> I {
        self.id_gen
    }

    /// The scan store, as a spec value.
    pub closed spec fn scan_store(&self) -> S {
        self.scan_repo
    }

    /// The graph store, as a spec value.
    pub closed spec fn graph_store(&self) -> G {
        self.graph_repo
    }

    /// The clock.
    pub fn clock(&self) -> (r: &C)
        ensures
            *r == self.clock_part(),
    {
        &self.clock
    }

    /// The scan store.
    pub fn scan_repo(&self) -> (r: &S)
        ensures
            *r == self.scan_store(),
    {
        &self.scan_repo
    }

    /// The graph store.
    pub fn graph_repo(&self) -> (r: &G)
        ensures
            *r == self.graph_store(),
    {
        &self.graph_repo
    }

    /// The context for explaining the node of `file_info`: a context with
    /// its outline when there is one, the plain node context otherwise;
    /// the labels of up to five dependencies and three dependents.
    pub fn prepare_explain_context(
        &self,
        file_info: &FileInfo,
        file_content: &str,
        graph: &GraphData,
        outline: &Vec<OutlineItem>,
    ) -> (r: ExplainContext)
        ensures
            r.node_id@ == file_info.id@,
            same_file_info(*file_info, r.file_info),
            outline@.len() > 0 ==> r.code_context@ == truncation(
                outline_context_body(file_content@, file_info.path@, *graph, file_info.id@, outline@),
                MAX_CONTEXT_BYTES as nat,
            ),
            outline@.len() == 0 ==> r.code_context@ == node_context(file_content@, file_info.path@, *graph, file_info.id@),
            string_views(r.dependencies@) == labels(linked(graph.edges@, graph.nodes@, file_info.id@, true, MAX_DEPS as nat)),
            string_views(r.dependents@) == labels(
                linked(graph.edges@, graph.nodes@, file_info.id@, false, MAX_DEPENDENTS as nat),
            ),
    {
        let code_context = if outline.len() > 0 {
            ContextBuilder::build_node_context_with_outline(file_content, file_info.path.as_str(), graph, file_info.id.as_str(), outline)
        } else {
            ContextBuilder::build_node_context(file_content, file_info.path.as_str(), graph, file_info.id.as_str())
        };
        let dependencies = linked_labels(graph, file_info.id.as_str(), true, MAX_DEPS);
        let dependents = linked_labels(graph, file_info.id.as_str(), false, MAX_DEPENDENTS);
        ExplainContext {
            node_id: file_info.id.clone(),
            file_info: copy_file_info(file_info),
            code_context,
            dependencies,
            dependents,
        }
    }

    /// The context for continuing a chat: the chat context of the question,
    /// and the history followed by exactly one new user message, stamped
    /// with a fresh identifier and the current time.
    pub fn prepare_chat_context(
        &mut self,
        file_contents: &[(String, String)],
        graph: &GraphData,
        history: &[ChatMessage],
        new_user_message: &str,
    ) -> (r: ChatContext)
        where
            C: Clock,
            I: IdGenerator,
        ensures
            r.context@ == chat_context(
                file_contents@.map_values(|f: (String, String)| (f.0@, f.1@)),
                *graph,
                new_user_message@,
            ),
            r.full_history@.len() == history@.len() + 1,
            forall|k: int| 0 <= k < history@.len() ==> same_message(#[trigger] history@[k], r.full_history@[k]),
            r.full_history@.last().role == ChatRole::User,
            r.full_history@.last().content@ == new_user_message@,
            old(self).id_part().gives_id(final(self).id_part(), r.full_history@.last().id@),
            old(self).clock_part().gives_time(r.full_history@.last().timestamp@),
            final(self).resolver() == old(self).resolver(),
            final(self).clock_part() == old(self).clock_part(),
            final(self).scan_store() == old(self).scan_store(),
            final(self).graph_store() == old(self).graph_store(),
    {
        let mut refs: Vec<(&str, &str)> = Vec::new();
        let mut k: usize = 0;
        while k < file_contents.len()
            invariant
                k <= file_contents@.len(),
                refs@.len() == k,
                forall|q: int| 0 <= q < k ==> (#[trigger] refs@[q]).0@ == file_contents@[q].0@ && refs@[q].1@
                    == file_contents@[q].1@,
            decreases file_contents@.len() - k,
        {
            refs.push((file_contents[k].0.as_str(), file_contents[k].1.as_str()));
            k = k + 1;
        }
        proof {
            assert(pair_views(refs@) =~= file_contents@.map_values(|f: (String, String)| (f.0@, f.1@)));
        }
        let context = ContextBuilder::build_chat_context(refs.as_slice(), graph, new_user_message);
        let mut full_history: Vec<ChatMessage> = Vec::new();
        let mut j: usize = 0;
        while j < history.len()
            invariant
                j <= history@.len(),
                full_history@.len() == j,
                forall|q: int| 0 <= q < j ==> same_message(#[trigger] history@[q], full_history@[q]),
            decreases history@.len() - j,
        {
            full_history.push(copy_message(&history[j]));
            j = j + 1;
        }
        let id = self.id_gen.next_id();
        let timestamp = self.clock.now();
        full_history.push(
            ChatMessage { id, role: ChatRole::User, content: new_user_message.to_owned(), timestamp },
        );
        ChatContext { context, full_history }
    }
}

} // verus!
