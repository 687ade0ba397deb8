//! Stable messages exchanged between the agent core, frontends and providers.
use vstd::prelude::*;

use crate::error::{AgentError, ErrorV};
use crate::json::{Json, JsonV};
use crate::text;
use crate::text::{
    from_chars, split_once_of, strip_prefix_of, to_chars, trim_both_of, trim_front_of, CharSet,
};

verus! {

/// Who said a message.
#[derive(Debug, Clone, Copy, PartialEq, Eq, Structural)]
pub enum Role {
    System,
    User,
    Assistant,
}

/// One entry of a conversation.
#[derive(Debug, PartialEq)]
pub enum ConversationItem {
    Message { role: Role, content: String },
    ToolCall { id: String, name: String, args: Json },
    ToolResult { id: String, output: String },
}

/// What a conversation entry says.
#[verifier::ext_equal]
pub enum ItemV {
    Message { role: Role, content: Seq<char> },
    ToolCall { id: Seq<char>, name: Seq<char>, args: JsonV },
    ToolResult { id: Seq<char>, output: Seq<char> },
}

impl View for ConversationItem {
    type V = ItemV;

    open spec fn view(&self) -> ItemV {
        match *self {
            ConversationItem::Message { role, content } => ItemV::Message {
                role,
                content: content@,
            },
            ConversationItem::ToolCall { id, name, args } => ItemV::ToolCall {
                id: id@,
                name: name@,
                args: args@,
            },
            ConversationItem::ToolResult { id, output } => ItemV::ToolResult {
                id: id@,
                output: output@,
            },
        }
    }
}

impl Clone for ConversationItem {
    fn clone(&self) -> (copy: Self)
        ensures
            copy@ == self@,
    {
        match self {
            ConversationItem::Message { role, content } => ConversationItem::Message {
                role: *role,
                content: content.clone(),
            },
            ConversationItem::ToolCall { id, name, args } => ConversationItem::ToolCall {
                id: id.clone(),
                name: name.clone(),
                args: args.clone(),
            },
            ConversationItem::ToolResult { id, output } => ConversationItem::ToolResult {
                id: id.clone(),
                output: output.clone(),
            },
        }
    }
}

/// What the entries of a conversation say.
pub open spec fn item_views(items: Seq<ConversationItem>) -> Seq<ItemV> {
    items.map_values(|item: ConversationItem| item@)
}

/// Copies a conversation.
pub fn clone_items(items: &[ConversationItem]) -> (copy: Vec<ConversationItem>)
    ensures
        item_views(copy@) == item_views(items@),
{
    let mut copy: Vec<ConversationItem> = Vec::new();
    for i in 0..items.len()
        invariant
            item_views(copy@) == item_views(items@).take(i as int),
    {
        let item = items[i].clone();
        let ghost before = copy@;
        copy.push(item);
        assert(item_views(copy@) == item_views(before).push(items@[i as int]@));
    }
    assert(item_views(items@).take(items.len() as int) == item_views(items@));
    copy
}

/// What an optional text says.
pub open spec fn optional_text(text: Option<String>) -> Option<Seq<char>> {
    match text {
        Some(t) => Some(t@),
        None => None,
    }
}

/// Copies an optional text.
pub fn clone_optional(text: &Option<String>) -> (copy: Option<String>)
    ensures
        optional_text(copy) == optional_text(*text),
{
    match text {
        Some(t) => Some(t.clone()),
        None => None,
    }
}

/// A tool call that a model asks for.
#[derive(Debug, PartialEq)]
pub struct ToolCallRequest {
    pub id: String,
    pub tool: String,
    pub args: Json,
    pub reason: Option<String>,
}

/// What a requested tool call says.
#[verifier::ext_equal]
pub struct CallV {
    pub id: Seq<char>,
    pub tool: Seq<char>,
    pub args: JsonV,
    pub reason: Option<Seq<char>>,
}

impl View for ToolCallRequest {
    type V = CallV;

    open spec fn view(&self) -> CallV {
        CallV {
            id: self.id@,
            tool: self.tool@,
            args: self.args@,
            reason: optional_text(self.reason),
        }
    }
}

impl Clone for ToolCallRequest {
    fn clone(&self) -> (copy: Self)
        ensures
            copy@ == self@,
    {
        ToolCallRequest {
            id: self.id.clone(),
            tool: self.tool.clone(),
            args: self.args.clone(),
            reason: clone_optional(&self.reason),
        }
    }
}

/// What a list of requested calls says.
pub open spec fn call_views(calls: Seq<ToolCallRequest>) -> Seq<CallV> {
    calls.map_values(|call: ToolCallRequest| call@)
}

/// What a model decided to do.
#[derive(Debug, PartialEq)]
pub enum AgentAction {
    Tool { id: String, tool: String, args: Json, reason: Option<String> },
    Tools { calls: Vec<ToolCallRequest> },
    Final { message: String },
}

/// What an action says.
#[verifier::ext_equal]
pub enum ActionV {
    Tool { id: Seq<char>, tool: Seq<char>, args: JsonV, reason: Option<Seq<char>> },
    Tools { calls: Seq<CallV> },
    Final { message: Seq<char> },
}

impl View for AgentAction {
    type V = ActionV;

    open spec fn view(&self) -> ActionV {
        match *self {
            AgentAction::Tool { id, tool, args, reason } => ActionV::Tool {
                id: id@,
                tool: tool@,
                args: args@,
                reason: optional_text(reason),
            },
            AgentAction::Tools { calls } => ActionV::Tools { calls: call_views(calls@) },
            AgentAction::Final { message } => ActionV::Final { message: message@ },
        }
    }
}

/// What a model's decision says.
pub open spec fn action_result(action: Result<AgentAction, AgentError>) -> Result<
    ActionV,
    ErrorV,
> {
    match action {
        Ok(a) => Ok(a@),
        Err(e) => Err(e@),
    }
}

/// A tool that a model may call.
#[derive(Debug, PartialEq)]
pub struct ToolSpec {
    pub name: String,
    pub description: String,
    pub input_schema: Json,
}

/// What a tool description says.
#[verifier::ext_equal]
pub struct ToolSpecV {
    pub name: Seq<char>,
    pub description: Seq<char>,
    pub input_schema: JsonV,
}

impl View for ToolSpec {
    type V = ToolSpecV;

    open spec fn view(&self) -> ToolSpecV {
        ToolSpecV {
            name: self.name@,
            description: self.description@,
            input_schema: self.input_schema@,
        }
    }
}

/// What a list of tool descriptions says.
pub open spec fn spec_views(tools: Seq<ToolSpec>) -> Seq<ToolSpecV> {
    tools.map_values(|tool: ToolSpec| tool@)
}

/// What a model is asked.
#[derive(Debug, PartialEq)]
pub struct ModelRequest {
    pub items: Vec<ConversationItem>,
    pub tools: Vec<ToolSpec>,
}

/// What a request says.
#[verifier::ext_equal]
pub struct RequestV {
    pub items: Seq<ItemV>,
    pub tools: Seq<ToolSpecV>,
}

impl View for ModelRequest {
    type V = RequestV;

    open spec fn view(&self) -> RequestV {
        RequestV { items: item_views(self.items@), tools: spec_views(self.tools@) }
    }
}

/// The tokens that one model response cost.
#[derive(Debug, Clone, Copy, PartialEq, Eq, Structural)]
pub struct TokenUsage {
    pub input_tokens: u64,
    pub output_tokens: u64,
    pub cached_input_tokens: u64,
    pub reasoning_tokens: u64,
}

impl Default for TokenUsage {
    fn default() -> (usage: Self)
        ensures
            usage == no_usage(),
    {
        TokenUsage {
            input_tokens: 0,
            output_tokens: 0,
            cached_input_tokens: 0,
            reasoning_tokens: 0,
        }
    }
}

/// No tokens at all.
pub open spec fn no_usage() -> TokenUsage {
    TokenUsage { input_tokens: 0, output_tokens: 0, cached_input_tokens: 0, reasoning_tokens: 0 }
}

/// The sum of two counts, or the largest count where the sum does not fit.
pub open spec fn saturated(a: u64, b: u64) -> u64 {
    if a + b > u64::MAX {
        u64::MAX
    } else {
        (a + b) as u64
    }
}

impl TokenUsage {
    /// The tokens that count against a budget: those read and those written. Cached and reasoning
    /// tokens are part of these two.
    pub fn total(&self) -> (total: u64)
        ensures
            total == saturated(self.input_tokens, self.output_tokens),
    {
        self.input_tokens.saturating_add(self.output_tokens)
    }
}

/// What happens while an agent runs.
#[derive(Debug, PartialEq)]
#[allow(inconsistent_fields)]
pub enum AgentEvent {
    Turn { turn: usize },
    ModelStart { turn: usize },
    ModelDelta { delta: String },
    ModelComplete { turn: usize },
    ContextCompacted { removed_items: usize, retained_items: usize, estimated_chars: usize },
    Usage { usage: TokenUsage },
    ProviderRetry { attempt: usize, delay_ms: u64, reason: String },
    ToolStart { tool: String, args: Json, reason: Option<String> },
    ToolResult { tool: String, result: String },
    ToolDenied { tool: String, reason: String },
    Final { message: String, turn: usize },
}

/// What an event says.
#[verifier::ext_equal]
#[allow(inconsistent_fields)]
pub enum EventV {
    Turn { turn: usize },
    ModelStart { turn: usize },
    ModelDelta { delta: Seq<char> },
    ModelComplete { turn: usize },
    ContextCompacted { removed_items: usize, retained_items: usize, estimated_chars: usize },
    Usage { usage: TokenUsage },
    ProviderRetry { attempt: usize, delay_ms: u64, reason: Seq<char> },
    ToolStart { tool: Seq<char>, args: JsonV, reason: Option<Seq<char>> },
    ToolResult { tool: Seq<char>, result: Seq<char> },
    ToolDenied { tool: Seq<char>, reason: Seq<char> },
    Final { message: Seq<char>, turn: usize },
}

impl View for AgentEvent {
    type V = EventV;

    open spec fn view(&self) -> EventV {
        match *self {
            AgentEvent::Turn { turn } => EventV::Turn { turn },
            AgentEvent::ModelStart { turn } => EventV::ModelStart { turn },
            AgentEvent::ModelDelta { delta } => EventV::ModelDelta { delta: delta@ },
            AgentEvent::ModelComplete { turn } => EventV::ModelComplete { turn },
            AgentEvent::ContextCompacted { removed_items, retained_items, estimated_chars } =>
                EventV::ContextCompacted { removed_items, retained_items, estimated_chars },
            AgentEvent::Usage { usage } => EventV::Usage { usage },
            AgentEvent::ProviderRetry { attempt, delay_ms, reason } => EventV::ProviderRetry {
                attempt,
                delay_ms,
                reason: reason@,
            },
            AgentEvent::ToolStart { tool, args, reason } => EventV::ToolStart {
                tool: tool@,
                args: args@,
                reason: optional_text(reason),
            },
            AgentEvent::ToolResult { tool, result } => EventV::ToolResult {
                tool: tool@,
                result: result@,
            },
            AgentEvent::ToolDenied { tool, reason } => EventV::ToolDenied {
                tool: tool@,
                reason: reason@,
            },
            AgentEvent::Final { message, turn } => EventV::Final { message: message@, turn },
        }
    }
}

/// What a list of events says.
pub open spec fn event_views(events: Seq<AgentEvent>) -> Seq<EventV> {
    events.map_values(|event: AgentEvent| event@)
}

/// Puts an event at the end of a list.
pub fn emit(events: &mut Vec<AgentEvent>, event: AgentEvent)
    ensures
        event_views(final(events)@) == event_views(old(events)@).push(event@),
{
    events.push(event);
    assert(event_views(events@) == event_views(old(events)@).push(event@));
}

/// The text in the first fenced block of a message, without its `json` tag and the space round
/// it; `None` where no block is opened or the first one is not closed.
pub open spec fn fenced_text(input: Seq<char>) -> Option<Seq<char>> {
    match text::split_at_first(input, "```"@) {
        Some((_, after_open)) => {
            let untagged = match text::strip_prefix(after_open, "json"@) {
                Some(rest) => rest,
                None => after_open,
            };
            let body = text::trim_front(CharSet::Blank, untagged);
            match text::split_at_first(body, "```"@) {
                Some((inside, _)) => Some(text::trim_both(CharSet::White, inside)),
                None => None,
            }
        },
        None => None,
    }
}

/// Where the JSON of an action may stand in a model's answer.
#[derive(Debug, Clone, PartialEq, Eq)]
pub struct ActionTexts {
    /// The whole answer.
    pub direct: String,
    /// The first fenced block.
    pub fenced: Option<String>,
}

/// Finds the texts of an answer that may hold an action.
pub fn action_texts(input: &str) -> (texts: ActionTexts)
    ensures
        texts.direct@ == text::trim_both(CharSet::White, input@),
        optional_text(texts.fenced) == fenced_text(input@),
{
    let chars = to_chars(input);
    let direct = from_chars(trim_both_of(CharSet::White, chars.as_slice()));
    let fenced = match split_once_of(chars.as_slice(), "```") {
        Some((_, after_open)) => {
            let untagged = match strip_prefix_of(after_open, "json") {
                Some(rest) => rest,
                None => after_open,
            };
            let body = trim_front_of(CharSet::Blank, untagged);
            match split_once_of(body, "```") {
                Some((inside, _)) => Some(from_chars(trim_both_of(CharSet::White, inside))),
                None => None,
            }
        },
        None => None,
    };
    ActionTexts { direct, fenced }
}

/// Chooses the action of an answer from what its texts decode to: the whole answer where it
/// decodes, else the fenced block where there is one, else the error of the whole answer.
pub fn parse_action<T, E>(direct: Result<T, E>, fenced: Option<Result<T, E>>) -> (action: Result<
    T,
    E,
>)
    ensures
        action == (match (direct, fenced) {
            (Err(_), Some(inside)) => inside,
            _ => direct,
        }),
{
    match direct {
        Ok(action) => Ok(action),
        Err(error) => match fenced {
            Some(inside) => inside,
            None => Err(error),
        },
    }
}

/// Counts add up as long as the sum fits, and stay at the largest one where it does not.
pub proof fn law_counts_add_up(a: u64, b: u64)
    ensures
        a + b <= u64::MAX ==> saturated(a, b) == a + b,
        a + b > u64::MAX ==> saturated(a, b) == u64::MAX,
{
}

/// The text of a fenced block is what stands between its fences, without the space round it; a tag
/// for JSON behind the opening fence changes nothing. An answer without a fence, or with one that is
/// not closed, has no block.
pub proof fn law_fenced_blocks_are_found(before: Seq<char>, rest: Seq<char>, input: Seq<char>)
    requires
        text::find(before + "```"@ + rest, "```"@) == Some(before.len()),
        text::find(before + "```"@ + ("json"@ + rest), "```"@) == Some(before.len()),
        !("json"@).is_prefix_of(rest),
    ensures
        fenced_text(before + "```"@ + ("json"@ + rest)) == fenced_text(before + "```"@ + rest),
        ({
            let body = text::trim_front(CharSet::Blank, rest);
            fenced_text(before + "```"@ + rest) == match text::split_at_first(body, "```"@) {
                Some((inside, _)) => Some(text::trim_both(CharSet::White, inside)),
                None => None,
            }
        }),
        text::find(input, "```"@) is None ==> fenced_text(input) is None,
{
    reveal_strlit("```");
    let plain = before + "```"@ + rest;
    let tagged = before + "```"@ + ("json"@ + rest);
    assert(plain.skip((before.len() + 3) as int) == rest);
    assert(tagged.skip((before.len() + 3) as int) == "json"@ + rest);
    text::law_prefixes_are_taken_off(rest, "json"@);
}

} // verus!
