//! The chat API of Ollama.
use std::time::Duration;
use vstd::prelude::*;

use crate::error;
use crate::error::{AgentError, ErrorV};
use crate::json;
use crate::json::{add_item, clone_items, put, Json, JsonV};
use crate::protocol;
use crate::protocol::{
    emit, AgentAction, AgentEvent, CallV, ConversationItem, EventV, ItemV, ModelRequest, RequestV,
    Role, TokenUsage, ToolCallRequest, ToolSpecV,
};
use crate::providers;
use crate::providers::retry;
use crate::providers::retry::RetryPolicy;
use crate::providers::{
    required_str, role_name, token_count, tool_action, trimmed_url, ResponseState, Stepped,
};
use crate::text;
use crate::text::{cat2, decimal, find_in, no_text, same_text, to_chars, CharSet};

verus! {

/// How Ollama is called.
pub struct OllamaProvider {
    pub base_url: String,
    pub model: String,
    pub retry: RetryPolicy,
    pub request_timeout: Duration,
}

/// An address with a scheme: `http` where it names none.
pub open spec fn with_scheme(url: Seq<char>) -> Seq<char> {
    if text::find(url, "://"@) is Some {
        url
    } else {
        "http://"@ + url
    }
}

impl OllamaProvider {
    /// The provider at its usual address.
    pub fn new(model: &str) -> (provider: Self)
        ensures
            provider.model@ == model@,
            provider.base_url@ == text::trim_back(CharSet::Slash, with_scheme("http://127.0.0.1:11434"@)),
            provider.is_fresh(),
    {
        Self::with_base_url(model, "http://127.0.0.1:11434")
    }

    /// The provider at an address.
    pub fn with_base_url(model: &str, base_url: &str) -> (provider: Self)
        ensures
            provider.model@ == model@,
            provider.base_url@ == text::trim_back(CharSet::Slash, with_scheme(base_url@)),
            provider.is_fresh(),
    {
        let base_url = match find_in(to_chars(base_url).as_slice(), to_chars("://").as_slice()) {
            Some(_) => base_url.to_owned(),
            None => cat2("http://", base_url),
        };
        OllamaProvider {
            base_url: trimmed_url(base_url.as_str()),
            model: model.to_owned(),
            retry: RetryPolicy::default(),
            request_timeout: Duration::from_secs(300),
        }
    }

    /// Whether what can be set is as it is at first.
    pub open spec fn is_fresh(&self) -> bool {
        &&& self.retry == retry::default_retry()
        &&& providers::is_default_timeout(self.request_timeout)
    }

    /// The provider with another way to try again.
    pub fn with_retry_policy(self, retry: RetryPolicy) -> (provider: Self)
        ensures
            provider == (OllamaProvider { retry, ..self }),
    {
        OllamaProvider { retry, ..self }
    }

    /// The provider with another limit on how long a call may take.
    pub fn with_request_timeout(self, timeout: Duration) -> (provider: Self)
        ensures
            provider == (OllamaProvider { request_timeout: timeout, ..self }),
    {
        OllamaProvider { request_timeout: timeout, ..self }
    }

    /// Where requests go.
    pub fn endpoint(&self) -> (url: String)
        ensures
            url@ == self.base_url@ + "/api/chat"@,
    {
        cat2(self.base_url.as_str(), "/api/chat")
    }
}

/// What a response of Ollama said so far.
pub struct OllamaState {
    text: String,
    tools: Vec<ToolCallRequest>,
}

/// What a response said so far, in the model.
#[verifier::ext_equal]
pub struct OllamaV {
    pub text: Seq<char>,
    pub tools: Seq<CallV>,
}

impl View for OllamaState {
    type V = OllamaV;

    closed spec fn view(&self) -> OllamaV {
        OllamaV { text: self.text@, tools: protocol::call_views(self.tools@) }
    }
}

/// The call of an entry of a chunk, as call number `seen`.
pub open spec fn chunk_call(call: JsonV, seen: nat) -> Result<CallV, ErrorV> {
    let function = call.at("function"@);
    match providers::demanded_text(function, "name"@) {
        Err(error) => Err(error),
        Ok(tool) => {
            let index = match function.at("index"@).unsigned() {
                Some(i) => i as usize as nat,
                None => seen,
            };
            Ok(
                CallV {
                    id: "ollama-"@ + text::decimal_text(index),
                    tool,
                    args: function.at("arguments"@),
                    reason: None,
                },
            )
        },
    }
}

/// The calls so far and those of a chunk, up to the first that is refused.
pub open spec fn with_calls(tools: Seq<CallV>, calls: Seq<JsonV>) -> (Seq<CallV>, Result<(), ErrorV>)
    decreases calls.len(),
{
    if calls.len() == 0 {
        (tools, Ok(()))
    } else {
        let (front, result) = with_calls(tools, calls.drop_last());
        if result is Err {
            (front, result)
        } else {
            match chunk_call(calls.last(), front.len()) {
                Ok(call) => (front.push(call), Ok(())),
                Err(error) => (front, Err(error)),
            }
        }
    }
}

proof fn lemma_with_calls_stop(tools: Seq<CallV>, calls: Seq<JsonV>, i: int)
    requires
        0 <= i <= calls.len(),
        with_calls(tools, calls.take(i)).1 is Err,
    ensures
        with_calls(tools, calls) == with_calls(tools, calls.take(i)),
    decreases calls.len(),
{
    if i == calls.len() {
        assert(calls.take(i) == calls);
    } else {
        assert(calls.drop_last().take(i) == calls.take(i));
        lemma_with_calls_stop(tools, calls.drop_last(), i);
    }
}

/// The usage that a chunk reports, where it is the last one.
pub open spec fn done_events(chunk: JsonV) -> Seq<EventV> {
    if chunk.at("done"@) == JsonV::Bool(true) {
        seq![
            EventV::Usage {
                usage: TokenUsage {
                    input_tokens: providers::count_at(chunk, "prompt_eval_count"@),
                    output_tokens: providers::count_at(chunk, "eval_count"@),
                    cached_input_tokens: 0,
                    reasoning_tokens: 0,
                },
            },
        ]
    } else {
        seq![]
    }
}

/// The text of a chunk.
pub open spec fn chunk_text(chunk: JsonV) -> Seq<char> {
    match chunk.at("message"@).at("content"@).text() {
        Some(content) => content,
        None => seq![],
    }
}

/// What a chunk adds to a response.
pub open spec fn ollama_step(state: OllamaV, chunk: JsonV) -> Stepped<OllamaV> {
    match chunk.at("error"@).text() {
        Some(error) => Stepped { state, events: seq![], result: Err(ErrorV::Provider(error)) },
        None => {
            let delta = chunk_text(chunk);
            let said = if delta.len() > 0 {
                seq![EventV::ModelDelta { delta }]
            } else {
                seq![]
            };
            let (tools, result) = match chunk.at("message"@).at("tool_calls"@).list() {
                Some(calls) => with_calls(state.tools, calls),
                None => (state.tools, Ok(())),
            };
            Stepped {
                state: OllamaV { text: state.text + delta, tools },
                events: done_events(chunk) + said,
                result,
            }
        },
    }
}

impl Default for OllamaState {
    fn default() -> (state: Self)
        ensures
            state@ == (OllamaV { text: seq![], tools: seq![] }),
    {
        let state = OllamaState { text: String::new(), tools: Vec::new() };
        assert(state@.text == Seq::<char>::empty());
        assert(state@.tools == Seq::<CallV>::empty());
        state
    }
}

/// The call of an entry of a chunk, as call number `seen`.
fn read_call(call: &Json, seen: usize) -> (found: Result<ToolCallRequest, AgentError>)
    ensures
        providers::call_result(found) == chunk_call(call@, seen as nat),
{
    let function = call.at("function");
    match required_str(function, "name") {
        Err(error) => Err(error),
        Ok(tool) => {
            let args = function.at("arguments").clone();
            let index: usize = match function.at("index").as_u64() {
                Some(index) => index as usize,
                None => seen,
            };
            let id = cat2("ollama-", decimal(index as u128).as_str());
            Ok(ToolCallRequest { id, tool, args, reason: None })
        },
    }
}

impl OllamaState {
    /// Takes the calls of a chunk in.
    fn add_calls(&mut self, calls: &Vec<Json>) -> (result: Result<(), AgentError>)
        ensures
            ({
                let (tools, verdict) = with_calls(old(self)@.tools, json::array_view(calls@));
                &&& final(self)@ == (OllamaV { tools, ..old(self)@ })
                &&& error::unit_result(result) == verdict
            }),
    {
        let ghost all = json::array_view(calls@);
        let ghost before = self@;
        proof {
            json::lemma_array_view(calls@);
        }
        for i in 0..calls.len()
            invariant
                all == json::array_view(calls@),
                all.len() == calls.len(),
                forall|j: int| 0 <= j < calls.len() ==> #[trigger] all[j] == calls@[j]@,
                before == old(self)@,
                self@ == (OllamaV { tools: self@.tools, ..before }),
                with_calls(before.tools, all.take(i as int)) == (
                    self@.tools,
                    Ok::<(), ErrorV>(()),
                ),
        {
            proof {
                assert(all.take(i + 1).drop_last() == all.take(i as int));
                assert(all.take(i + 1).last() == calls@[i as int]@);
            }
            match read_call(&calls[i], self.tools.len()) {
                Ok(call) => {
                    let ghost tools = self.tools@;
                    self.tools.push(call);
                    assert(protocol::call_views(self.tools@) == protocol::call_views(tools).push(
                        call@,
                    ));
                },
                Err(error) => {
                    proof {
                        lemma_with_calls_stop(before.tools, all, i + 1);
                    }
                    return Err(error);
                },
            }
        }
        assert(all.take(calls.len() as int) == all);
        Ok(())
    }

    /// What the whole response comes to.
    pub fn finish(self) -> (action: Result<AgentAction, AgentError>)
        ensures
            protocol::action_result(action) == providers::response_action(
                self@.tools,
                self@.text,
                "Ollama returned no text or tool call"@,
            ),
    {
        if self.tools.len() > 0 {
            Ok(tool_action(self.tools))
        } else if no_text(self.text.as_str()) {
            Err(AgentError::Provider("Ollama returned no text or tool call".to_owned()))
        } else {
            Ok(AgentAction::Final { message: self.text })
        }
    }
}

impl ResponseState for OllamaState {
    type Known = OllamaV;

    open spec fn known(&self) -> OllamaV {
        self@
    }

    open spec fn step(known: OllamaV, event: JsonV) -> Stepped<OllamaV> {
        ollama_step(known, event)
    }

    fn consume(&mut self, event: &Json, events: &mut Vec<AgentEvent>) -> (result: Result<
        (),
        AgentError,
    >) {
        let ghost shown = protocol::event_views(events@);
        let ghost said_before = self@.text;
        assert(shown + Seq::<EventV>::empty() == shown);
        if let Some(error) = event.at("error").as_str() {
            return Err(AgentError::Provider(error.to_owned()));
        }
        if event.at("done").as_bool() == Some(true) {
            let usage = TokenUsage {
                input_tokens: token_count(event, "prompt_eval_count"),
                output_tokens: token_count(event, "eval_count"),
                cached_input_tokens: 0,
                reasoning_tokens: 0,
            };
            emit(events, AgentEvent::Usage { usage });
        }
        assert(protocol::event_views(events@) == shown + done_events(event@));
        assert(shown + done_events(event@) == shown + (done_events(event@) + Seq::<EventV>::empty()));
        assert(said_before + Seq::<char>::empty() == said_before);
        if let Some(delta) = event.at("message").at("content").as_str() {
            if !no_text(delta) {
                self.text.append(delta);
                emit(events, AgentEvent::ModelDelta { delta: delta.to_owned() });
                assert(protocol::event_views(events@) == shown + (done_events(event@) + seq![
                    EventV::ModelDelta { delta: delta@ },
                ]));
            } else {
                assert(delta@ == Seq::<char>::empty());
            }
        }
        if let Some(calls) = event.at("message").at("tool_calls").as_array() {
            return self.add_calls(calls);
        }
        Ok(())
    }
}

/// A message to Ollama.
pub enum OllamaMessage {
    /// Something said. Where calls followed what the assistant said, its message says that it made
    /// none of them.
    Said { role: Role, content: String, no_calls: bool },
    /// Calls that the assistant made.
    Called { calls: Vec<Json> },
    /// What a tool gave back.
    Answered { tool_name: String, content: String },
}

/// A message to Ollama, in the model.
#[verifier::ext_equal]
pub enum MessageV {
    Said { role: Role, content: Seq<char>, no_calls: bool },
    Called { calls: Seq<JsonV> },
    Answered { tool_name: Seq<char>, content: Seq<char> },
}

impl View for OllamaMessage {
    type V = MessageV;

    open spec fn view(&self) -> MessageV {
        match *self {
            OllamaMessage::Said { role, content, no_calls } => MessageV::Said {
                role,
                content: content@,
                no_calls,
            },
            OllamaMessage::Called { calls } => MessageV::Called {
                calls: json::array_view(calls@),
            },
            OllamaMessage::Answered { tool_name, content } => MessageV::Answered {
                tool_name: tool_name@,
                content: content@,
            },
        }
    }
}

/// What messages say.
pub open spec fn message_views(messages: Seq<OllamaMessage>) -> Seq<MessageV> {
    messages.map_values(|m: OllamaMessage| m@)
}

/// How a call is sent.
pub open spec fn call_json(name: Seq<char>, args: JsonV) -> JsonV {
    JsonV::Object(
        map![
            "type"@ => JsonV::Text("function"@),
            "function"@ => JsonV::Object(map!["name"@ => JsonV::Text(name), "arguments"@ => args]),
        ],
    )
}

/// The tool of the last call with an identity.
pub open spec fn called_tool(items: Seq<ItemV>, id: Seq<char>) -> Seq<char>
    decreases items.len(),
{
    if items.len() == 0 {
        "unknown"@
    } else {
        match items.last() {
            ItemV::ToolCall { id: call_id, name, .. } => if call_id == id {
                name
            } else {
                called_tool(items.drop_last(), id)
            },
            _ => called_tool(items.drop_last(), id),
        }
    }
}

/// Messages with a call added: to the calls in front of it, where such are the last message.
pub open spec fn with_call(messages: Seq<MessageV>, call: JsonV) -> Seq<MessageV> {
    let alone = MessageV::Called { calls: seq![call] };
    if messages.len() == 0 {
        seq![alone]
    } else {
        match messages.last() {
            MessageV::Called { calls } => messages.drop_last().push(
                MessageV::Called { calls: calls.push(call) },
            ),
            MessageV::Said { role: Role::Assistant, content, .. } => messages.drop_last().push(
                MessageV::Said { role: Role::Assistant, content, no_calls: true },
            ).push(alone),
            _ => messages.push(alone),
        }
    }
}

/// The first `n` entries of a conversation as messages.
pub open spec fn chat_messages(items: Seq<ItemV>, n: nat) -> Seq<MessageV>
    decreases n,
{
    if n == 0 {
        seq![]
    } else {
        let front = chat_messages(items, (n - 1) as nat);
        match items[n - 1] {
            ItemV::Message { role, content } => front.push(
                MessageV::Said { role, content, no_calls: false },
            ),
            ItemV::ToolCall { name, args, .. } => with_call(front, call_json(name, args)),
            ItemV::ToolResult { id, output } => front.push(
                MessageV::Answered {
                    tool_name: called_tool(items.take(n - 1), id),
                    content: output,
                },
            ),
        }
    }
}

/// How a message is sent.
pub open spec fn message_json(message: MessageV) -> JsonV {
    match message {
        MessageV::Said { role, content, no_calls } => {
            let said = map![
                "role"@ => JsonV::Text(providers::role_text(role)),
                "content"@ => JsonV::Text(content),
            ];
            JsonV::Object(
                if no_calls {
                    said.insert("tool_calls"@, JsonV::Null)
                } else {
                    said
                },
            )
        },
        MessageV::Called { calls } => JsonV::Object(
            map![
                "role"@ => JsonV::Text("assistant"@),
                "content"@ => JsonV::Text(""@),
                "tool_calls"@ => JsonV::Array(calls),
            ],
        ),
        MessageV::Answered { tool_name, content } => JsonV::Object(
            map![
                "role"@ => JsonV::Text("tool"@),
                "tool_name"@ => JsonV::Text(tool_name),
                "content"@ => JsonV::Text(content),
            ],
        ),
    }
}

/// How a tool is described.
pub open spec fn ollama_tool(tool: ToolSpecV) -> JsonV {
    JsonV::Object(
        map![
            "type"@ => JsonV::Text("function"@),
            "function"@ => JsonV::Object(
                map![
                    "name"@ => JsonV::Text(tool.name),
                    "description"@ => JsonV::Text(tool.description),
                    "parameters"@ => tool.input_schema,
                ],
            ),
        ],
    )
}

/// What is sent to Ollama.
pub open spec fn ollama_body(model: Seq<char>, request: RequestV) -> JsonV {
    JsonV::Object(
        map![
            "model"@ => JsonV::Text(model),
            "messages"@ => JsonV::Array(
                chat_messages(request.items, request.items.len()).map_values(
                    |m: MessageV| message_json(m),
                ),
            ),
            "tools"@ => JsonV::Array(request.tools.map_values(|tool: ToolSpecV| ollama_tool(tool))),
            "stream"@ => JsonV::Bool(true),
        ],
    )
}

/// The tool of the last call with an identity among the entries before `end`.
fn find_tool(items: &Vec<ConversationItem>, end: usize, id: &str) -> (name: String)
    requires
        end <= items.len(),
    ensures
        name@ == called_tool(protocol::item_views(items@).take(end as int), id@),
{
    let ghost all = protocol::item_views(items@);
    let mut i = end;
    while i > 0
        invariant
            i <= end <= items.len(),
            all == protocol::item_views(items@),
            called_tool(all.take(end as int), id@) == called_tool(all.take(i as int), id@),
        decreases i,
    {
        assert(all.take(i as int).drop_last() == all.take(i - 1));
        assert(all.take(i as int).last() == items@[i - 1]@);
        i -= 1;
        if let ConversationItem::ToolCall { id: call_id, name, .. } = &items[i] {
            if same_text(call_id.as_str(), id) {
                return name.clone();
            }
        }
    }
    "unknown".to_owned()
}

/// Adds a call to messages.
fn add_call(messages: &mut Vec<OllamaMessage>, call: Json)
    ensures
        message_views(final(messages)@) == with_call(message_views(old(messages)@), call@),
{
    let ghost before = messages@;
    let last = messages.pop();
    let mut alone: Vec<Json> = Vec::new();
    match last {
        Some(OllamaMessage::Called { calls }) => {
            let mut calls = calls;
            add_item(&mut calls, call);
            messages.push(OllamaMessage::Called { calls });
            assert(message_views(messages@) == with_call(message_views(before), call@));
        },
        Some(OllamaMessage::Said { role: Role::Assistant, content, .. }) => {
            messages.push(
                OllamaMessage::Said { role: Role::Assistant, content, no_calls: true },
            );
            add_item(&mut alone, call);
            messages.push(OllamaMessage::Called { calls: alone });
            assert(json::array_view(alone@) == seq![call@]);
            assert(message_views(messages@) == with_call(message_views(before), call@));
        },
        Some(other) => {
            messages.push(other);
            assert(messages@ == before);
            add_item(&mut alone, call);
            messages.push(OllamaMessage::Called { calls: alone });
            assert(json::array_view(alone@) == seq![call@]);
            assert(message_views(messages@) == with_call(message_views(before), call@));
        },
        None => {
            add_item(&mut alone, call);
            messages.push(OllamaMessage::Called { calls: alone });
            assert(json::array_view(alone@) == seq![call@]);
            assert(message_views(messages@) == with_call(message_views(before), call@));
        },
    }
}

/// The messages of a conversation.
fn chat(items: &Vec<ConversationItem>) -> (messages: Vec<OllamaMessage>)
    ensures
        message_views(messages@) == chat_messages(protocol::item_views(items@), items@.len()),
{
    let ghost all = protocol::item_views(items@);
    let mut messages: Vec<OllamaMessage> = Vec::new();
    for i in 0..items.len()
        invariant
            all == protocol::item_views(items@),
            message_views(messages@) == chat_messages(all, i as nat),
    {
        let ghost before = messages@;
        assert(all[i as int] == items@[i as int]@);
        match &items[i] {
            ConversationItem::Message { role, content } => {
                let said = OllamaMessage::Said {
                    role: *role,
                    content: content.clone(),
                    no_calls: false,
                };
                messages.push(said);
                assert(message_views(messages@) == message_views(before).push(said@));
            },
            ConversationItem::ToolCall { id, name, args } => {
                let mut function: Vec<(String, Json)> = Vec::new();
                put(&mut function, "name", Json::Text(name.clone()));
                put(&mut function, "arguments", args.clone());
                let mut call: Vec<(String, Json)> = Vec::new();
                put(&mut call, "type", Json::text("function"));
                put(&mut call, "function", Json::Object(function));
                add_call(&mut messages, Json::Object(call));
            },
            ConversationItem::ToolResult { id, output } => {
                let answered = OllamaMessage::Answered {
                    tool_name: find_tool(items, i, id.as_str()),
                    content: output.clone(),
                };
                messages.push(answered);
                assert(message_views(messages@) == message_views(before).push(answered@));
            },
        }
    }
    messages
}

/// How a message is sent.
fn send_message(message: &OllamaMessage) -> (sent: Json)
    ensures
        sent@ == message_json(message@),
{
    let mut entry: Vec<(String, Json)> = Vec::new();
    match message {
        OllamaMessage::Said { role, content, no_calls } => {
            put(&mut entry, "role", Json::text(role_name(*role)));
            put(&mut entry, "content", Json::Text(content.clone()));
            if *no_calls {
                put(&mut entry, "tool_calls", Json::Null);
            }
        },
        OllamaMessage::Called { calls } => {
            put(&mut entry, "role", Json::text("assistant"));
            put(&mut entry, "content", Json::text(""));
            put(&mut entry, "tool_calls", Json::Array(clone_items(calls)));
        },
        OllamaMessage::Answered { tool_name, content } => {
            put(&mut entry, "role", Json::text("tool"));
            put(&mut entry, "tool_name", Json::Text(tool_name.clone()));
            put(&mut entry, "content", Json::Text(content.clone()));
        },
    }
    Json::Object(entry)
}

/// Builds what is sent to Ollama.
pub fn ollama_request(model: &str, request: &ModelRequest) -> (body: Json)
    ensures
        body@ == ollama_body(model@, request@),
{
    let chat = chat(&request.items);
    let ghost said = chat_messages(request@.items, request@.items.len());
    let ghost sent = said.map_values(|m: MessageV| message_json(m));
    let mut messages: Vec<Json> = Vec::new();
    for i in 0..chat.len()
        invariant
            message_views(chat@) == said,
            sent == said.map_values(|m: MessageV| message_json(m)),
            json::array_view(messages@) == sent.take(i as int),
    {
        assert(said[i as int] == chat@[i as int]@);
        add_item(&mut messages, send_message(&chat[i]));
        assert(sent.take(i + 1) == sent.take(i as int).push(sent[i as int]));
    }
    assert(sent.take(chat.len() as int) == sent);
    let ghost wanted = request@.tools.map_values(|tool: ToolSpecV| ollama_tool(tool));
    let mut tools: Vec<Json> = Vec::new();
    for i in 0..request.tools.len()
        invariant
            wanted == request@.tools.map_values(|tool: ToolSpecV| ollama_tool(tool)),
            json::array_view(tools@) == wanted.take(i as int),
    {
        let tool = &request.tools[i];
        let mut function: Vec<(String, Json)> = Vec::new();
        put(&mut function, "name", Json::Text(tool.name.clone()));
        put(&mut function, "description", Json::Text(tool.description.clone()));
        put(&mut function, "parameters", tool.input_schema.clone());
        let mut entry: Vec<(String, Json)> = Vec::new();
        put(&mut entry, "type", Json::text("function"));
        put(&mut entry, "function", Json::Object(function));
        let described = Json::Object(entry);
        assert(described@ == wanted[i as int]);
        add_item(&mut tools, described);
        assert(wanted.take(i + 1) == wanted.take(i as int).push(wanted[i as int]));
    }
    assert(wanted.take(request.tools.len() as int) == wanted);
    let mut body: Vec<(String, Json)> = Vec::new();
    put(&mut body, "model", Json::text(model));
    put(&mut body, "messages", Json::Array(messages));
    put(&mut body, "tools", Json::Array(tools));
    put(&mut body, "stream", Json::Bool(true));
    Json::Object(body)
}

/// A result is sent under the name of the tool that it answers: that of the nearest call before it
/// with its identity, also where calls of other turns have the same one.
pub proof fn law_results_name_their_tool(items: Seq<ItemV>, call: int, result: int)
    requires
        0 <= call < result < items.len(),
        items[call] is ToolCall,
        items[result] matches ItemV::ToolResult { id, .. } && id == items[call]->ToolCall_id,
        forall|i: int|
            call < i < result ==> !(#[trigger] items[i] matches ItemV::ToolCall { id, .. } && id
                == items[call]->ToolCall_id),
    ensures
        ({
            let messages = chat_messages(items, items.len());
            let at = chat_messages(items, result as nat).len();
            at < messages.len() && messages[at as int] == (MessageV::Answered {
                tool_name: items[call]->name,
                content: items[result]->output,
            })
        }),
{
    lemma_called_tool(items, call, result as nat);
    lemma_answers_stay(
        items,
        (result + 1) as nat,
        items.len(),
        chat_messages(items, result as nat).len() as int,
    );
}

proof fn lemma_answers_stay(items: Seq<ItemV>, n: nat, m: nat, i: int)
    requires
        n <= m,
        0 <= i < chat_messages(items, n).len(),
        chat_messages(items, n)[i] is Answered,
    ensures
        i < chat_messages(items, m).len(),
        chat_messages(items, m)[i] == chat_messages(items, n)[i],
    decreases m,
{
    if n < m {
        lemma_answers_stay(items, n, (m - 1) as nat, i);
    }
}

proof fn lemma_called_tool(items: Seq<ItemV>, call: int, n: nat)
    requires
        0 <= call < n <= items.len(),
        items[call] is ToolCall,
        forall|i: int|
            call < i < n ==> !(#[trigger] items[i] matches ItemV::ToolCall { id, .. } && id
                == items[call]->ToolCall_id),
    ensures
        called_tool(items.take(n as int), items[call]->ToolCall_id) == items[call]->name,
    decreases n,
{
    let front = items.take(n as int);
    assert(front.last() == items[n - 1]);
    if call < n - 1 {
        assert(front.drop_last() == items.take(n - 1));
        lemma_called_tool(items, call, (n - 1) as nat);
    }
}

/// Calls that follow each other are sent in one message of the assistant.
pub proof fn law_batches_stay_together(items: Seq<ItemV>, from: nat, to: nat)
    requires
        from < to <= items.len(),
        forall|i: int| from <= i < to ==> #[trigger] items[i] is ToolCall,
        from > 0 ==> !(items[from - 1] is ToolCall),
    ensures
        ({
            let messages = chat_messages(items, to);
            &&& messages.len() == chat_messages(items, from).len() + 1
            &&& messages.last() matches MessageV::Called { calls } && calls.len() == to - from
                && forall|i: int|
                from <= i < to ==> calls[i - from] == call_json(
                    (#[trigger] items[i])->name,
                    items[i]->args,
                )
        }),
    decreases to,
{
    assert(items[to - 1] is ToolCall);
    if from + 1 < to {
        law_batches_stay_together(items, from, (to - 1) as nat);
    } else {
        lemma_last_message(items, from);
    }
}

proof fn lemma_last_message(items: Seq<ItemV>, n: nat)
    requires
        n > 0 ==> !(items[n - 1] is ToolCall),
    ensures
        n > 0 ==> !(chat_messages(items, n).last() is Called),
{
}

/// The text of a response is what was shown of it: all deltas, one behind the other, and nothing
/// else. A response that calls no tool comes to that text.
pub proof fn law_deltas_make_the_message(values: Seq<JsonV>)
    ensures
        ({
            let run = providers::steps::<OllamaState>(
                OllamaV { text: seq![], tools: seq![] },
                values,
            );
            let shown = providers::said(run.events);
            &&& run.state.text == shown
            &&& run.state.tools.len() == 0 && shown.len() > 0 ==> providers::response_action(
                run.state.tools,
                run.state.text,
                "Ollama returned no text or tool call"@,
            ) == Ok::<protocol::ActionV, ErrorV>(protocol::ActionV::Final { message: shown })
        }),
    decreases values.len(),
{
    let fresh = OllamaV { text: seq![], tools: seq![] };
    let run = providers::steps::<OllamaState>(fresh, values);
    if values.len() > 0 {
        law_deltas_make_the_message(values.drop_last());
        let front = providers::steps::<OllamaState>(fresh, values.drop_last());
        if front.result is Ok {
            let chunk = values.last();
            let last = ollama_step(front.state, chunk);
            assert(run.events == front.events + last.events);
            providers::lemma_said_adds_up(front.events, last.events);
            if chunk.at("error"@).text() is None {
                let delta = chunk_text(chunk);
                let shown = if delta.len() > 0 {
                    seq![EventV::ModelDelta { delta }]
                } else {
                    seq![]
                };
                providers::lemma_said_adds_up(done_events(chunk), shown);
                providers::lemma_said_once(EventV::ModelDelta { delta });
                if done_events(chunk).len() > 0 {
                    providers::lemma_said_once(done_events(chunk)[0]);
                    assert(done_events(chunk) == seq![done_events(chunk)[0]]);
                } else {
                    assert(done_events(chunk) == Seq::<EventV>::empty());
                    providers::lemma_said_once(EventV::ModelDelta { delta });
                }
                assert(providers::said(last.events) == delta);
            } else {
                assert(last.events == Seq::<EventV>::empty());
            }
            assert(run.state.text == providers::said(run.events));
        }
    }
}

/// What a chunk adds: its content to the text, which is shown as it is, its calls to the calls, and
/// at the end its usage; a chunk that tells of an error adds nothing and is refused with it.
pub proof fn law_chunks_are_taken_in(state: OllamaV, chunk: JsonV)
    ensures
        ({
            let stepped = ollama_step(state, chunk);
            let message = chunk.at("message"@);
            let ends = chunk.at("done"@) == JsonV::Bool(true);
            &&& chunk.at("error"@) matches JsonV::Text(error) ==> stepped.state == state
                && stepped.events.len() == 0 && stepped.result == Err::<(), ErrorV>(
                ErrorV::Provider(error),
            )
            &&& !(chunk.at("error"@) is Text) ==> {
                &&& message.at("content"@) matches JsonV::Text(content) ==> stepped.state.text
                    == state.text + content && (content.len() > 0 ==> stepped.events.len() > 0
                    && stepped.events.last() == (EventV::ModelDelta { delta: content }))
                &&& !(message.at("content"@) is Text) ==> stepped.state.text == state.text
                &&& !(message.at("tool_calls"@) is Array) ==> stepped.state.tools == state.tools
                    && stepped.result is Ok
                &&& ends ==> stepped.events.len() > 0 && (
                stepped.events[0] matches EventV::Usage { usage } && {
                    &&& chunk.at("prompt_eval_count"@).unsigned() matches Some(n)
                        ==> usage.input_tokens == n
                    &&& chunk.at("eval_count"@).unsigned() matches Some(n) ==> usage.output_tokens
                        == n
                    &&& usage.cached_input_tokens == 0 && usage.reasoning_tokens == 0
                })
                &&& !ends ==> forall|i: int|
                    0 <= i < stepped.events.len() ==> !(#[trigger] stepped.events[i] is Usage)
            }
        }),
{
    if !(chunk.at("message"@).at("content"@) is Text) {
        assert(state.text + Seq::<char>::empty() == state.text);
    }
}

/// Every call of a chunk is added behind those before it, in order: with its tool and exactly its
/// arguments, and with an identity made of its index or, where it has none, of its place.
pub proof fn law_calls_are_added(tools: Seq<CallV>, calls: Seq<JsonV>, i: int)
    requires
        0 <= i < calls.len(),
        with_calls(tools, calls).1 is Ok,
    ensures
        ({
            let grown = with_calls(tools, calls).0;
            let function = calls[i].at("function"@);
            let added = grown[tools.len() + i];
            &&& grown.len() == tools.len() + calls.len()
            &&& grown.take(tools.len() as int) == tools
            &&& function.at("name"@) == JsonV::Text(added.tool)
            &&& added.args == function.at("arguments"@)
            &&& added.reason is None
            &&& function.at("index"@).unsigned() is None ==> added.id == "ollama-"@
                + text::decimal_text((tools.len() + i) as nat)
            &&& function.at("index"@).unsigned() matches Some(index) ==> (index <= usize::MAX
                ==> added.id == "ollama-"@ + text::decimal_text(index as nat))
        }),
    decreases calls.len(),
{
    let front = calls.drop_last();
    lemma_with_calls_len(tools, front);
    let before = with_calls(tools, front).0;
    let grown = with_calls(tools, calls).0;
    assert(grown.take(tools.len() as int) == before.take(tools.len() as int));
    if i < front.len() {
        law_calls_are_added(tools, front, i);
        assert(front[i] == calls[i]);
        assert(grown[tools.len() + i] == before[tools.len() + i]);
    }
}

proof fn lemma_with_calls_len(tools: Seq<CallV>, calls: Seq<JsonV>)
    ensures
        with_calls(tools, calls).1 is Ok ==> with_calls(tools, calls).0.len() == tools.len()
            + calls.len() && with_calls(tools, calls).0.take(tools.len() as int) == tools,
    decreases calls.len(),
{
    if calls.len() > 0 {
        let front = calls.drop_last();
        lemma_with_calls_len(tools, front);
        if with_calls(tools, calls).1 is Ok {
            assert(with_calls(tools, calls).0.take(tools.len() as int) == with_calls(
                tools,
                front,
            ).0.take(tools.len() as int));
        }
    } else {
        assert(tools.take(tools.len() as int) == tools);
    }
}

/// A message of the conversation is sent behind all before it, under its role and with its text, and
/// changes nothing of what stands before it; so is the result of a call.
pub proof fn law_messages_are_sent_in_order(items: Seq<ItemV>, n: nat)
    requires
        0 < n <= items.len(),
    ensures
        ({
            let before = chat_messages(items, (n - 1) as nat);
            let after = chat_messages(items, n);
            &&& items[n - 1] matches ItemV::Message { role, content } ==> after.len()
                == before.len() + 1 && after.drop_last() == before && (
            after.last() matches MessageV::Said { role: sent, content: text, .. } && sent == role
                && text == content)
            &&& items[n - 1] matches ItemV::ToolResult { output, .. } ==> after.len()
                == before.len() + 1 && after.drop_last() == before && (
            after.last() matches MessageV::Answered { content, .. } && content == output)
            &&& items[n - 1] matches ItemV::ToolCall { name, args, .. } ==> {
                &&& after.len() >= before.len()
                &&& after.len() > 0
                &&& after.last() matches MessageV::Called { calls } && calls.len() > 0
                    && calls.last().at("function"@).at("name"@) == JsonV::Text(name)
                    && calls.last().at("function"@).at("arguments"@) == args
            }
        }),
{
    let before = chat_messages(items, (n - 1) as nat);
    let after = chat_messages(items, n);
    if !(items[n - 1] is ToolCall) {
        assert(after.drop_last() == before);
    }
    reveal_strlit("type");
    reveal_strlit("function");
    reveal_strlit("name");
    reveal_strlit("arguments");
    assert("type"@.len() == 4 && "function"@.len() == 8 && "name"@.len() == 4 && "arguments"@.len()
        == 9);
}

/// A call changes nothing that was said before it: all messages keep their role and their text, and
/// all calls before it stay.
pub proof fn law_calls_keep_what_was_said(items: Seq<ItemV>, n: nat, i: int)
    requires
        0 < n <= items.len(),
        0 <= i < chat_messages(items, (n - 1) as nat).len(),
    ensures
        ({
            let before = chat_messages(items, (n - 1) as nat)[i];
            let after = chat_messages(items, n)[i];
            &&& i < chat_messages(items, n).len()
            &&& before matches MessageV::Said { role, content, .. } ==> (
            after matches MessageV::Said { role: sent, content: text, .. } && sent == role && text
                == content)
            &&& before is Answered ==> after == before
            &&& before matches MessageV::Called { calls } ==> (after matches MessageV::Called {
                calls: more,
            } && calls.is_prefix_of(more))
        }),
{
}

/// How messages are sent: what was said under its role, calls as the assistant's, and results under
/// the name of their tool.
pub proof fn law_messages_say_what_they_hold(message: MessageV)
    ensures
        message matches MessageV::Said { role, content, .. } ==> {
            &&& message_json(message).at("role"@) == JsonV::Text(
                match role {
                    Role::System => "system"@,
                    Role::User => "user"@,
                    Role::Assistant => "assistant"@,
                },
            )
            &&& message_json(message).at("content"@) == JsonV::Text(content)
        },
        message matches MessageV::Called { calls } ==> {
            &&& message_json(message).at("role"@) == JsonV::Text("assistant"@)
            &&& message_json(message).at("tool_calls"@) == JsonV::Array(calls)
        },
        message matches MessageV::Answered { tool_name, content } ==> {
            &&& message_json(message).at("role"@) == JsonV::Text("tool"@)
            &&& message_json(message).at("tool_name"@) == JsonV::Text(tool_name)
            &&& message_json(message).at("content"@) == JsonV::Text(content)
        },
{
    reveal_strlit("role");
    reveal_strlit("content");
    reveal_strlit("tool_calls");
    reveal_strlit("tool_name");
    assert("role"@.len() == 4 && "content"@.len() == 7 && "tool_calls"@.len() == 10
        && "tool_name"@.len() == 9);
}

/// A request names its model, holds the whole conversation and every tool with its name, its
/// description and its schema, in order; it asks for a stream.
pub proof fn law_requests_hold_everything(model: Seq<char>, request: RequestV)
    ensures
        ({
            let body = ollama_body(model, request);
            let said = chat_messages(request.items, request.items.len());
            &&& body.at("model"@) == JsonV::Text(model)
            &&& body.at("stream"@) == JsonV::Bool(true)
            &&& body.at("messages"@) matches JsonV::Array(messages) && messages.len() == said.len()
                && forall|i: int|
                0 <= i < messages.len() ==> #[trigger] messages[i] == message_json(said[i])
            &&& body.at("tools"@) matches JsonV::Array(tools) && tools.len()
                == request.tools.len() && forall|i: int|
                0 <= i < tools.len() ==> {
                    let function = (#[trigger] tools[i]).at("function"@);
                    &&& tools[i].at("type"@) == JsonV::Text("function"@)
                    &&& function.at("name"@) == JsonV::Text(request.tools[i].name)
                    &&& function.at("description"@) == JsonV::Text(request.tools[i].description)
                    &&& function.at("parameters"@) == request.tools[i].input_schema
                }
        }),
{
    reveal_strlit("model");
    reveal_strlit("messages");
    reveal_strlit("tools");
    reveal_strlit("stream");
    reveal_strlit("type");
    reveal_strlit("function");
    reveal_strlit("name");
    reveal_strlit("description");
    reveal_strlit("parameters");
    assert("model"@.len() == 5 && "messages"@.len() == 8 && "tools"@.len() == 5 && "stream"@.len()
        == 6 && "type"@.len() == 4 && "function"@.len() == 8 && "name"@.len() == 4
        && "description"@.len() == 11 && "parameters"@.len() == 10);
    assert("model"@[0] == 'm' && "tools"@[0] == 't');
}

/// An address always names a scheme: one that does stays as it is, any other gets `http`.
pub proof fn law_addresses_name_a_scheme(url: Seq<char>)
    ensures
        text::find(with_scheme(url), "://"@) is Some,
        text::find(url, "://"@) is Some ==> with_scheme(url) == url,
        text::find(url, "://"@) is None ==> with_scheme(url) == "http://"@ + url,
{
    if text::find(url, "://"@) is None {
        reveal_strlit("http://");
        reveal_strlit("://");
        let whole = "http://"@ + url;
        text::lemma_find_from(whole, "://"@, 0);
        assert(whole.subrange(4, 7) == "://"@);
        assert(text::occurs_at(whole, "://"@, 4));
    }
}

/// A provider of which nothing was set takes three retries and five minutes at most.
pub proof fn law_fresh_providers_wait_five_minutes(provider: OllamaProvider)
    requires
        provider.is_fresh(),
    ensures
        provider.retry.max_retries == 3,
        provider.retry.base_delay_ms == 500,
        providers::duration_nanos(provider.request_timeout) == 300_000_000_000,
{
}

} // verus!
