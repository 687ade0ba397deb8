//! The Responses API of OpenAI.
use std::time::Duration;
use vstd::prelude::*;

use crate::error;
use crate::error::{AgentError, ErrorV};
use crate::json;
use crate::json::{add_item, put, render, Json, JsonV};
use crate::protocol;
use crate::protocol::{
    emit, AgentAction, AgentEvent, CallV, ConversationItem, EventV, ItemV, ModelRequest, RequestV,
    Role, TokenUsage, ToolCallRequest, ToolSpecV,
};
use crate::providers;
use crate::providers::retry;
use crate::providers::retry::RetryPolicy;
use crate::providers::{
    checked_args, required_str, role_name, system_text, token_count, tool_action, trimmed_url,
    ResponseState, Stepped,
};
use crate::text;
use crate::text::{cat2, no_text, CharSet};

verus! {

/// How OpenAI is called.
pub struct OpenAiProvider {
    pub api_key: String,
    pub base_url: String,
    pub model: String,
    pub retry: RetryPolicy,
    pub request_timeout: Duration,
}

impl OpenAiProvider {
    /// The provider at its usual address.
    pub fn new(api_key: &str, model: &str) -> (provider: Self)
        ensures
            provider.api_key@ == api_key@,
            provider.model@ == model@,
            provider.base_url@ == text::trim_back(CharSet::Slash, "https://api.openai.com/v1"@),
            provider.is_fresh(),
    {
        Self::with_base_url(api_key, model, "https://api.openai.com/v1")
    }

    /// The provider at an address.
    pub fn with_base_url(api_key: &str, model: &str, base_url: &str) -> (provider: Self)
        ensures
            provider.api_key@ == api_key@,
            provider.model@ == model@,
            provider.base_url@ == text::trim_back(CharSet::Slash, base_url@),
            provider.is_fresh(),
    {
        OpenAiProvider {
            api_key: api_key.to_owned(),
            base_url: trimmed_url(base_url),
            model: model.to_owned(),
            retry: RetryPolicy::default(),
            request_timeout: Duration::from_secs(300),
        }
    }

    /// Whether what can be set is as it is at first.
    pub open spec fn is_fresh(&self) -> bool {
        &&& self.retry == retry::default_retry()
        &&& providers::is_default_timeout(self.request_timeout)
    }

    /// The provider with another way to try again.
    pub fn with_retry_policy(self, retry: RetryPolicy) -> (provider: Self)
        ensures
            provider == (OpenAiProvider { retry, ..self }),
    {
        OpenAiProvider { retry, ..self }
    }

    /// The provider with another limit on how long a call may take.
    pub fn with_request_timeout(self, timeout: Duration) -> (provider: Self)
        ensures
            provider == (OpenAiProvider { request_timeout: timeout, ..self }),
    {
        OpenAiProvider { request_timeout: timeout, ..self }
    }

    /// Where requests go.
    pub fn endpoint(&self) -> (url: String)
        ensures
            url@ == self.base_url@ + "/responses"@,
    {
        cat2(self.base_url.as_str(), "/responses")
    }
}

/// What a response of OpenAI said so far.
pub struct OpenAiState {
    text: String,
    tools: Vec<ToolCallRequest>,
}

/// What a response said so far, in the model.
#[verifier::ext_equal]
pub struct OpenAiV {
    pub text: Seq<char>,
    pub tools: Seq<CallV>,
}

impl View for OpenAiState {
    type V = OpenAiV;

    closed spec fn view(&self) -> OpenAiV {
        OpenAiV { text: self.text@, tools: protocol::call_views(self.tools@) }
    }
}

/// The tokens of a usage report.
pub open spec fn reported_usage(usage: JsonV) -> TokenUsage {
    TokenUsage {
        input_tokens: providers::count_at(usage, "input_tokens"@),
        output_tokens: providers::count_at(usage, "output_tokens"@),
        cached_input_tokens: providers::count_at(
            usage.at("input_tokens_details"@),
            "cached_tokens"@,
        ),
        reasoning_tokens: providers::count_at(
            usage.at("output_tokens_details"@),
            "reasoning_tokens"@,
        ),
    }
}

/// The text of the arguments of a call, an empty object where there is none.
pub open spec fn arguments_text(item: JsonV) -> Seq<char> {
    match item.at("arguments"@).text() {
        Some(t) => t,
        None => "{}"@,
    }
}

/// The call of a finished output item, given what parsing its arguments gave.
pub open spec fn item_call(item: JsonV, parsed: Result<JsonV, Seq<char>>) -> Result<CallV, ErrorV> {
    match providers::demanded_text(item, "call_id"@) {
        Err(error) => Err(error),
        Ok(id) => match providers::demanded_text(item, "name"@) {
            Err(error) => Err(error),
            Ok(tool) => match providers::args_verdict(parsed) {
                Err(error) => Err(error),
                Ok(args) => Ok(CallV { id, tool, args, reason: None }),
            },
        },
    }
}

/// What an event adds to a response.
pub open spec fn openai_step(state: OpenAiV, event: JsonV) -> Stepped<OpenAiV> {
    let kind = event.at("type"@);
    let item = event.at("item"@);
    let unchanged = Stepped { state, events: seq![], result: Ok(()) };
    if kind == JsonV::Text("response.output_text.delta"@) {
        match event.at("delta"@).text() {
            Some(delta) => Stepped {
                state: OpenAiV { text: state.text + delta, ..state },
                events: seq![EventV::ModelDelta { delta }],
                result: Ok(()),
            },
            None => unchanged,
        }
    } else if kind == JsonV::Text("response.output_item.done"@) && item.at("type"@) == JsonV::Text(
        "function_call"@,
    ) {
        match item_call(item, json::json_of_text(arguments_text(item))) {
            Ok(call) => Stepped {
                state: OpenAiV { tools: state.tools.push(call), ..state },
                ..unchanged
            },
            Err(error) => Stepped { result: Err(error), ..unchanged },
        }
    } else if kind == JsonV::Text("response.completed"@) {
        Stepped {
            events: seq![
                EventV::Usage { usage: reported_usage(event.at("response"@).at("usage"@)) },
            ],
            ..unchanged
        }
    } else if kind == JsonV::Text("error"@) || kind == JsonV::Text("response.failed"@) {
        Stepped { result: Err(ErrorV::Provider(json::json_text(event))), ..unchanged }
    } else {
        unchanged
    }
}

/// The call of a finished output item, given what parsing its arguments gave.
pub fn finished_call(item: &Json, parsed: Result<Json, String>) -> (call: Result<
    ToolCallRequest,
    AgentError,
>)
    ensures
        providers::call_result(call) == item_call(item@, json::parsed(parsed)),
{
    let id = match required_str(item, "call_id") {
        Ok(id) => id,
        Err(error) => {
            return Err(error);
        },
    };
    let tool = match required_str(item, "name") {
        Ok(tool) => tool,
        Err(error) => {
            return Err(error);
        },
    };
    match checked_args(parsed) {
        Ok(args) => Ok(ToolCallRequest { id, tool, args, reason: None }),
        Err(error) => Err(error),
    }
}

/// Reports the tokens of a response.
pub fn emit_usage(usage: &Json, events: &mut Vec<AgentEvent>)
    ensures
        protocol::event_views(final(events)@) == protocol::event_views(old(events)@).push(
            EventV::Usage { usage: reported_usage(usage@) },
        ),
{
    emit(
        events,
        AgentEvent::Usage {
            usage: TokenUsage {
                input_tokens: token_count(usage, "input_tokens"),
                output_tokens: token_count(usage, "output_tokens"),
                cached_input_tokens: token_count(usage.at("input_tokens_details"), "cached_tokens"),
                reasoning_tokens: token_count(
                    usage.at("output_tokens_details"),
                    "reasoning_tokens",
                ),
            },
        },
    );
}

impl Default for OpenAiState {
    fn default() -> (state: Self)
        ensures
            state@ == (OpenAiV { text: seq![], tools: seq![] }),
    {
        let state = OpenAiState { text: String::new(), tools: Vec::new() };
        assert(state@.text == Seq::<char>::empty());
        assert(state@.tools == Seq::<CallV>::empty());
        state
    }
}

impl ResponseState for OpenAiState {
    type Known = OpenAiV;

    open spec fn known(&self) -> OpenAiV {
        self@
    }

    open spec fn step(known: OpenAiV, event: JsonV) -> Stepped<OpenAiV> {
        openai_step(known, event)
    }

    fn consume(&mut self, event: &Json, events: &mut Vec<AgentEvent>) -> (result: Result<
        (),
        AgentError,
    >) {
        let kind = event.at("type");
        let item = event.at("item");
        let ghost shown = protocol::event_views(events@);
        assert(shown + Seq::<EventV>::empty() == shown);
        if kind.is_text("response.output_text.delta") {
            if let Some(delta) = event.at("delta").as_str() {
                self.text.append(delta);
                emit(events, AgentEvent::ModelDelta { delta: delta.to_owned() });
                assert(protocol::event_views(events@) == shown + seq![
                    EventV::ModelDelta { delta: delta@ },
                ]);
            }
        } else if kind.is_text("response.output_item.done") && item.at("type").is_text(
            "function_call",
        ) {
            let arguments = match item.at("arguments").as_str() {
                Some(t) => t,
                None => "{}",
            };
            match finished_call(item, json::parse(arguments)) {
                Ok(call) => {
                    let ghost tools = self.tools@;
                    self.tools.push(call);
                    assert(protocol::call_views(self.tools@) == protocol::call_views(tools).push(
                        call@,
                    ));
                },
                Err(error) => {
                    return Err(error);
                },
            }
        } else if kind.is_text("response.completed") {
            emit_usage(event.at("response").at("usage"), events);
            assert(protocol::event_views(events@) == shown + seq![
                EventV::Usage { usage: reported_usage(event@.at("response"@).at("usage"@)) },
            ]);
        } else if kind.is_text("error") || kind.is_text("response.failed") {
            return Err(AgentError::Provider(render(event)));
        }
        Ok(())
    }
}

impl OpenAiState {
    /// What the whole response comes to.
    pub fn finish(self) -> (action: Result<AgentAction, AgentError>)
        ensures
            protocol::action_result(action) == providers::response_action(
                self@.tools,
                self@.text,
                "OpenAI returned no text or tool call"@,
            ),
    {
        if self.tools.len() > 0 {
            Ok(tool_action(self.tools))
        } else if no_text(self.text.as_str()) {
            Err(AgentError::Provider("OpenAI returned no text or tool call".to_owned()))
        } else {
            Ok(AgentAction::Final { message: self.text })
        }
    }
}

/// How an entry of a conversation is sent, if it is sent: system messages go elsewhere.
pub open spec fn input_item(item: ItemV) -> Option<JsonV> {
    match item {
        ItemV::Message { role: Role::System, .. } => None,
        ItemV::Message { role, content } => Some(
            JsonV::Object(
                map![
                    "role"@ => JsonV::Text(providers::role_text(role)),
                    "content"@ => JsonV::Text(content),
                ],
            ),
        ),
        ItemV::ToolCall { id, name, args } => Some(
            JsonV::Object(
                map![
                    "type"@ => JsonV::Text("function_call"@),
                    "call_id"@ => JsonV::Text(id),
                    "name"@ => JsonV::Text(name),
                    "arguments"@ => JsonV::Text(json::json_text(args)),
                ],
            ),
        ),
        ItemV::ToolResult { id, output } => Some(
            JsonV::Object(
                map![
                    "type"@ => JsonV::Text("function_call_output"@),
                    "call_id"@ => JsonV::Text(id),
                    "output"@ => JsonV::Text(output),
                ],
            ),
        ),
    }
}

/// How a conversation is sent.
pub open spec fn input_items(items: Seq<ItemV>) -> Seq<JsonV>
    decreases items.len(),
{
    if items.len() == 0 {
        seq![]
    } else {
        let front = input_items(items.drop_last());
        match input_item(items.last()) {
            Some(sent) => front.push(sent),
            None => front,
        }
    }
}

/// How a tool is described.
pub open spec fn openai_tool(tool: ToolSpecV) -> JsonV {
    JsonV::Object(
        map![
            "type"@ => JsonV::Text("function"@),
            "name"@ => JsonV::Text(tool.name),
            "description"@ => JsonV::Text(tool.description),
            "parameters"@ => tool.input_schema,
            "strict"@ => JsonV::Bool(false),
        ],
    )
}

/// What is sent to OpenAI.
pub open spec fn openai_body(model: Seq<char>, request: RequestV) -> JsonV {
    JsonV::Object(
        map![
            "model"@ => JsonV::Text(model),
            "instructions"@ => JsonV::Text(
                text::join_text(providers::system_texts(request.items), "\n\n"@),
            ),
            "input"@ => JsonV::Array(input_items(request.items)),
            "tools"@ => JsonV::Array(request.tools.map_values(|tool: ToolSpecV| openai_tool(tool))),
            "tool_choice"@ => JsonV::Text("auto"@),
            "stream"@ => JsonV::Bool(true),
            "store"@ => JsonV::Bool(false),
        ],
    )
}

/// How an entry of a conversation is sent, if it is sent.
fn send_item(item: &ConversationItem) -> (sent: Option<Json>)
    ensures
        match sent {
            Some(json) => input_item(item@) == Some(json@),
            None => input_item(item@) is None,
        },
{
    let mut entry: Vec<(String, Json)> = Vec::new();
    match item {
        ConversationItem::Message { role: Role::System, .. } => {
            return None;
        },
        ConversationItem::Message { role, content } => {
            put(&mut entry, "role", Json::text(role_name(*role)));
            put(&mut entry, "content", Json::Text(content.clone()));
        },
        ConversationItem::ToolCall { id, name, args } => {
            put(&mut entry, "type", Json::text("function_call"));
            put(&mut entry, "call_id", Json::Text(id.clone()));
            put(&mut entry, "name", Json::Text(name.clone()));
            put(&mut entry, "arguments", Json::Text(render(args)));
        },
        ConversationItem::ToolResult { id, output } => {
            put(&mut entry, "type", Json::text("function_call_output"));
            put(&mut entry, "call_id", Json::Text(id.clone()));
            put(&mut entry, "output", Json::Text(output.clone()));
        },
    }
    Some(Json::Object(entry))
}

/// Builds what is sent to OpenAI.
pub fn openai_request(model: &str, request: &ModelRequest) -> (body: Json)
    ensures
        body@ == openai_body(model@, request@),
{
    let instructions = system_text(request);
    let ghost all = request@.items;
    let mut input: Vec<Json> = Vec::new();
    for i in 0..request.items.len()
        invariant
            all == request@.items,
            json::array_view(input@) == input_items(all.take(i as int)),
    {
        assert(all.take(i + 1).drop_last() == all.take(i as int));
        assert(all.take(i + 1).last() == request.items@[i as int]@);
        if let Some(sent) = send_item(&request.items[i]) {
            add_item(&mut input, sent);
        }
    }
    assert(all.take(request.items.len() as int) == all);
    let ghost wanted = request@.tools.map_values(|tool: ToolSpecV| openai_tool(tool));
    let mut tools: Vec<Json> = Vec::new();
    for i in 0..request.tools.len()
        invariant
            wanted == request@.tools.map_values(|tool: ToolSpecV| openai_tool(tool)),
            json::array_view(tools@) == wanted.take(i as int),
    {
        let tool = &request.tools[i];
        let mut entry: Vec<(String, Json)> = Vec::new();
        put(&mut entry, "type", Json::text("function"));
        put(&mut entry, "name", Json::Text(tool.name.clone()));
        put(&mut entry, "description", Json::Text(tool.description.clone()));
        put(&mut entry, "parameters", tool.input_schema.clone());
        put(&mut entry, "strict", Json::Bool(false));
        let described = Json::Object(entry);
        assert(described@ == wanted[i as int]);
        add_item(&mut tools, described);
        assert(wanted.take(i + 1) == wanted.take(i as int).push(wanted[i as int]));
    }
    assert(wanted.take(request.tools.len() as int) == wanted);
    let mut body: Vec<(String, Json)> = Vec::new();
    put(&mut body, "model", Json::text(model));
    put(&mut body, "instructions", Json::Text(instructions));
    put(&mut body, "input", Json::Array(input));
    put(&mut body, "tools", Json::Array(tools));
    put(&mut body, "tool_choice", Json::text("auto"));
    put(&mut body, "stream", Json::Bool(true));
    put(&mut body, "store", Json::Bool(false));
    Json::Object(body)
}

proof fn lemma_every_item_is_sent(items: Seq<ItemV>, i: int) -> (k: int)
    requires
        0 <= i < items.len(),
        input_item(items[i]) is Some,
    ensures
        0 <= k < input_items(items).len(),
        input_items(items)[k] == input_item(items[i])->0,
    decreases items.len(),
{
    let front = input_items(items.drop_last());
    if i == items.len() - 1 {
        front.len() as int
    } else {
        lemma_every_item_is_sent(items.drop_last(), i)
    }
}

/// The identity of every tool call and of every tool result is sent with it.
pub proof fn law_tool_identity_is_sent(items: Seq<ItemV>, i: int)
    requires
        0 <= i < items.len(),
    ensures
        items[i] matches ItemV::ToolCall { id, name, .. } ==> exists|k: int|
            {
                &&& 0 <= k < input_items(items).len()
                &&& (#[trigger] input_items(items)[k]).at("call_id"@) == JsonV::Text(id)
                &&& input_items(items)[k].at("name"@) == JsonV::Text(name)
            },
        items[i] matches ItemV::ToolResult { id, output } ==> exists|k: int|
            {
                &&& 0 <= k < input_items(items).len()
                &&& (#[trigger] input_items(items)[k]).at("call_id"@) == JsonV::Text(id)
                &&& input_items(items)[k].at("output"@) == JsonV::Text(output)
            },
{
    reveal_strlit("call_id");
    reveal_strlit("name");
    reveal_strlit("arguments");
    reveal_strlit("output");
    assert("call_id"@.len() == 7 && "name"@.len() == 4 && "arguments"@.len() == 9
        && "output"@.len() == 6);
    if !(items[i] is Message) {
        let k = lemma_every_item_is_sent(items, i);
        let sent = input_items(items)[k];
        assert(sent == input_item(items[i])->0);
    }
}

/// The text of a response is what was shown of it: all deltas, one behind the other, and nothing
/// else. A response that calls no tool comes to that text.
pub proof fn law_deltas_make_the_message(values: Seq<JsonV>)
    ensures
        ({
            let run = providers::steps::<OpenAiState>(
                OpenAiV { text: seq![], tools: seq![] },
                values,
            );
            let shown = providers::said(run.events);
            &&& run.state.text == shown
            &&& run.state.tools.len() == 0 && shown.len() > 0 ==> providers::response_action(
                run.state.tools,
                run.state.text,
                "OpenAI returned no text or tool call"@,
            ) == Ok::<protocol::ActionV, ErrorV>(protocol::ActionV::Final { message: shown })
        }),
    decreases values.len(),
{
    let fresh = OpenAiV { text: seq![], tools: seq![] };
    let run = providers::steps::<OpenAiState>(fresh, values);
    if values.len() > 0 {
        law_deltas_make_the_message(values.drop_last());
        let front = providers::steps::<OpenAiState>(fresh, values.drop_last());
        if front.result is Ok {
            let last = openai_step(front.state, values.last());
            assert(run.events == front.events + last.events);
            providers::lemma_said_adds_up(front.events, last.events);
            if last.events.len() == 1 {
                providers::lemma_said_once(last.events[0]);
                assert(last.events == seq![last.events[0]]);
            } else {
                assert(last.events == Seq::<EventV>::empty());
            }
            assert(run.state.text == providers::said(run.events));
        }
    }
}

/// What an event adds: a delta to the text, a finished call to the calls, a completed response its
/// usage, a failure an error that tells all of it; every other event nothing.
pub proof fn law_events_are_taken_in(state: OpenAiV, event: JsonV)
    ensures
        ({
            let stepped = openai_step(state, event);
            let item = event.at("item"@);
            let usage = event.at("response"@).at("usage"@);
            let kind = event.at("type"@);
            &&& kind == JsonV::Text("response.output_text.delta"@) ==> (
            event.at("delta"@) matches JsonV::Text(delta) ==> stepped == (Stepped {
                state: OpenAiV { text: state.text + delta, tools: state.tools },
                events: seq![EventV::ModelDelta { delta }],
                result: Ok(()),
            }))
            &&& kind == JsonV::Text("response.output_item.done"@) && item.at("type"@)
                == JsonV::Text("function_call"@) && item.at("call_id"@) is Text && item.at("name"@)
                is Text && item.at("arguments"@) is Text ==> match json::json_of_text(
                item.at("arguments"@)->Text_0,
            ) {
                Ok(args) => {
                    &&& stepped.result is Ok
                    &&& stepped.events.len() == 0
                    &&& stepped.state == (OpenAiV {
                        text: state.text,
                        tools: state.tools.push(
                            CallV {
                                id: item.at("call_id"@)->Text_0,
                                tool: item.at("name"@)->Text_0,
                                args,
                                reason: None,
                            },
                        ),
                    })
                },
                Err(_) => stepped.result is Err && stepped.state == state,
            }
            &&& kind == JsonV::Text("response.completed"@) ==> {
                &&& stepped.state == state
                &&& stepped.result is Ok
                &&& stepped.events.len() == 1
                &&& stepped.events[0] matches EventV::Usage { usage: told } && {
                    &&& usage.at("input_tokens"@).unsigned() matches Some(n) ==> told.input_tokens
                        == n
                    &&& usage.at("output_tokens"@).unsigned() matches Some(n) ==> told.output_tokens
                        == n
                    &&& usage.at("input_tokens_details"@).at(
                        "cached_tokens"@,
                    ).unsigned() matches Some(n) ==> told.cached_input_tokens == n
                    &&& usage.at("output_tokens_details"@).at(
                        "reasoning_tokens"@,
                    ).unsigned() matches Some(n) ==> told.reasoning_tokens == n
                }
            }
            &&& kind == JsonV::Text("error"@) || kind == JsonV::Text("response.failed"@)
                ==> stepped.result == Err::<(), ErrorV>(ErrorV::Provider(json::json_text(event)))
                && stepped.state == state
            &&& kind != JsonV::Text("response.output_text.delta"@) && kind != JsonV::Text(
                "response.output_item.done"@,
            ) && kind != JsonV::Text("response.completed"@) && kind != JsonV::Text("error"@)
                && kind != JsonV::Text("response.failed"@) ==> stepped.state == state
                && stepped.events.len() == 0 && stepped.result is Ok
        }),
{
    reveal_strlit("response.output_text.delta");
    reveal_strlit("response.output_item.done");
    reveal_strlit("response.completed");
    reveal_strlit("response.failed");
    reveal_strlit("error");
    assert("response.output_text.delta"@.len() == 26 && "response.output_item.done"@.len() == 25
        && "response.completed"@.len() == 18 && "response.failed"@.len() == 15 && "error"@.len()
        == 5);
}

/// A conversation is sent entry by entry, in order: a message under its role, a call and a result
/// with all that they hold, and system messages not at all.
pub proof fn law_conversations_are_sent_in_order(
    front: Seq<ItemV>,
    back: Seq<ItemV>,
    item: ItemV,
)
    ensures
        input_items(front + back) == input_items(front) + input_items(back),
        item matches ItemV::Message { role, content } ==> if role == Role::System {
            input_items(seq![item]).len() == 0
        } else {
            &&& input_items(seq![item]).len() == 1
            &&& input_items(seq![item])[0].at("role"@) == JsonV::Text(
                if role == Role::User {
                    "user"@
                } else {
                    "assistant"@
                },
            )
            &&& input_items(seq![item])[0].at("content"@) == JsonV::Text(content)
        },
        item matches ItemV::ToolCall { id, name, args } ==> {
            &&& input_items(seq![item]).len() == 1
            &&& input_items(seq![item])[0].at("type"@) == JsonV::Text("function_call"@)
            &&& input_items(seq![item])[0].at("call_id"@) == JsonV::Text(id)
            &&& input_items(seq![item])[0].at("name"@) == JsonV::Text(name)
            &&& input_items(seq![item])[0].at("arguments"@) == JsonV::Text(json::json_text(args))
        },
        item matches ItemV::ToolResult { id, output } ==> {
            &&& input_items(seq![item]).len() == 1
            &&& input_items(seq![item])[0].at("type"@) == JsonV::Text("function_call_output"@)
            &&& input_items(seq![item])[0].at("call_id"@) == JsonV::Text(id)
            &&& input_items(seq![item])[0].at("output"@) == JsonV::Text(output)
        },
    decreases back.len(),
{
    if back.len() == 0 {
        assert(front + back == front);
        assert(input_items(front) + input_items(back) == input_items(front));
    } else {
        law_conversations_are_sent_in_order(front, back.drop_last(), item);
        assert((front + back).drop_last() == front + back.drop_last());
        assert((front + back).last() == back.last());
        assert(input_items(front + back) == input_items(front) + input_items(back));
    }
    assert(seq![item].drop_last() == Seq::<ItemV>::empty());
    assert(seq![item].last() == item);
    reveal_with_fuel(input_items, 2);
    reveal_strlit("role");
    reveal_strlit("content");
    reveal_strlit("type");
    reveal_strlit("call_id");
    reveal_strlit("name");
    reveal_strlit("arguments");
    reveal_strlit("output");
    assert("role"@.len() == 4 && "content"@.len() == 7 && "type"@.len() == 4 && "call_id"@.len()
        == 7 && "name"@.len() == 4 && "arguments"@.len() == 9 && "output"@.len() == 6);
    assert("role"@[0] == 'r' && "type"@[0] == 't' && "name"@[0] == 'n');
}

/// A request names its model, holds the system messages as instructions, the conversation as input,
/// and every tool with its name, its description and its schema, in order; it asks for a stream.
pub proof fn law_requests_hold_everything(model: Seq<char>, request: RequestV)
    ensures
        ({
            let body = openai_body(model, request);
            &&& body.at("model"@) == JsonV::Text(model)
            &&& body.at("instructions"@) == JsonV::Text(
                text::join_text(providers::system_texts(request.items), "\n\n"@),
            )
            &&& body.at("input"@) == JsonV::Array(input_items(request.items))
            &&& body.at("stream"@) == JsonV::Bool(true)
            &&& body.at("store"@) == JsonV::Bool(false)
            &&& body.at("tools"@) matches JsonV::Array(tools) && tools.len()
                == request.tools.len() && forall|i: int|
                0 <= i < tools.len() ==> {
                    &&& (#[trigger] tools[i]).at("name"@) == JsonV::Text(request.tools[i].name)
                    &&& tools[i].at("description"@) == JsonV::Text(request.tools[i].description)
                    &&& tools[i].at("parameters"@) == request.tools[i].input_schema
                    &&& tools[i].at("type"@) == JsonV::Text("function"@)
                }
        }),
{
    reveal_strlit("model");
    reveal_strlit("instructions");
    reveal_strlit("input");
    reveal_strlit("tools");
    reveal_strlit("tool_choice");
    reveal_strlit("stream");
    reveal_strlit("store");
    reveal_strlit("type");
    reveal_strlit("name");
    reveal_strlit("description");
    reveal_strlit("parameters");
    reveal_strlit("strict");
    assert("model"@.len() == 5 && "instructions"@.len() == 12 && "input"@.len() == 5
        && "tools"@.len() == 5 && "tool_choice"@.len() == 11 && "stream"@.len() == 6
        && "store"@.len() == 5 && "type"@.len() == 4 && "name"@.len() == 4 && "description"@.len()
        == 11 && "parameters"@.len() == 10 && "strict"@.len() == 6);
    assert("model"@[0] == 'm' && "input"@[0] == 'i' && "tools"@[0] == 't' && "store"@[0] == 's');
    assert("type"@[0] == 't' && "name"@[0] == 'n');
}

/// A call of which no arguments were sent has those that an empty object holds, any other those that
/// its text says.
pub proof fn law_missing_arguments_are_an_empty_object(item: JsonV)
    ensures
        item.at("arguments"@) is Text ==> JsonV::Text(arguments_text(item)) == item.at("arguments"@),
        !(item.at("arguments"@) is Text) ==> arguments_text(item) == "{}"@,
{
}

/// A provider of which nothing was set takes three retries and five minutes at most.
pub proof fn law_fresh_providers_wait_five_minutes(provider: OpenAiProvider)
    requires
        provider.is_fresh(),
    ensures
        provider.retry.max_retries == 3,
        provider.retry.base_delay_ms == 500,
        providers::duration_nanos(provider.request_timeout) == 300_000_000_000,
{
}

} // verus!
