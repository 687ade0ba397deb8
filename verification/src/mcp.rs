//! Tools of MCP servers: the messages that are exchanged with a server, and the names under which
//! its tools are offered.
use vstd::prelude::*;

use crate::error;
use crate::error::{AgentError, ErrorV};
use crate::json;
use crate::json::{encode, number_from_i64, parse_bytes, put, render, Json, JsonV};
use crate::protocol;
use crate::protocol::{clone_optional, ToolSpec, ToolSpecV};
use crate::providers::stream;
use crate::providers::stream::find_bytes;
use crate::text;
use crate::text::{
    ascii_alnum, cat2, cat3, cat4, cat5, decimal, holds_text, join, no_text, same_text, text_before,
    text_bytes, to_chars,
};

verus! {

/// The version of the protocol that is asked for.
pub open spec fn asked_version() -> Seq<char> {
    "2025-11-25"@
}

/// Whether a version of the protocol is understood.
pub open spec fn is_supported(version: Seq<char>) -> bool {
    version == "2025-11-25"@ || version == "2025-06-18"@ || version == "2024-11-05"@
}

/// The bytes that one message may have.
pub const MAX_MESSAGE_BYTES: usize = 1_048_576;

/// Whether a character may stand in the name of a tool.
pub open spec fn tool_char(c: char) -> bool {
    text::is_ascii_alnum(c) || c == '_' || c == '-' || c == '.'
}

/// Whether a text is a name for a tool.
pub open spec fn is_tool_name(name: Seq<char>) -> bool {
    1 <= text::byte_len(name) <= 128 && forall|i: int|
        0 <= i < name.len() ==> tool_char(#[trigger] name[i])
}

/// Whether a text is a name for a tool.
pub fn valid_tool_name(name: &str) -> (valid: bool)
    ensures
        valid == is_tool_name(name@),
{
    let bytes = text_bytes(name);
    if bytes < 1 || bytes > 128 {
        return false;
    }
    let chars = to_chars(name);
    for i in 0..chars.len()
        invariant
            chars@ == name@,
            forall|j: int| 0 <= j < i ==> tool_char(#[trigger] chars@[j]),
    {
        let c = chars[i];
        if !(ascii_alnum(c) || c == '_' || c == '-' || c == '.') {
            return false;
        }
    }
    true
}

/// The error of a server.
pub open spec fn server_error(server: Seq<char>, message: Seq<char>) -> ErrorV {
    ErrorV::Tool { tool: "mcp:"@ + server, message }
}

/// The error of a server.
pub fn mcp_error(server: &str, message: String) -> (error: AgentError)
    ensures
        error@ == server_error(server@, message@),
{
    AgentError::Tool { tool: cat2("mcp:", server), message }
}

/// A request.
pub open spec fn request_json(id: u64, method: Seq<char>, params: JsonV) -> JsonV {
    JsonV::Object(
        map![
            "jsonrpc"@ => JsonV::Text("2.0"@),
            "id"@ => json::unsigned_json(id),
            "method"@ => JsonV::Text(method),
            "params"@ => params,
        ],
    )
}

/// A message that asks for no answer.
pub open spec fn notification_json(method: Seq<char>, params: Option<JsonV>) -> JsonV {
    let message = map!["jsonrpc"@ => JsonV::Text("2.0"@), "method"@ => JsonV::Text(method)];
    JsonV::Object(
        match params {
            Some(p) => message.insert("params"@, p),
            None => message,
        },
    )
}

/// The answer to a request of the server: none of them is supported.
pub open spec fn refusal_json(id: JsonV) -> JsonV {
    JsonV::Object(
        map![
            "jsonrpc"@ => JsonV::Text("2.0"@),
            "id"@ => id,
            "error"@ => JsonV::Object(
                map![
                    "code"@ => JsonV::Number(json::signed_number(-32601i64)),
                    "message"@ => JsonV::Text("Client method not supported"@),
                ],
            ),
        ],
    )
}

/// What is told a server about a request that took too long.
pub open spec fn cancellation_json(id: u64) -> JsonV {
    notification_json(
        "notifications/cancelled"@,
        Some(
            JsonV::Object(
                map![
                    "requestId"@ => json::unsigned_json(id),
                    "reason"@ => JsonV::Text("CodeHelm request timeout"@),
                ],
            ),
        ),
    )
}

/// The requests of a connection.
pub struct RpcRequests {
    next_id: u64,
}

impl View for RpcRequests {
    type V = u64;

    closed spec fn view(&self) -> u64 {
        self.next_id
    }
}

impl RpcRequests {
    /// A connection without requests.
    pub fn new() -> (requests: Self)
        ensures
            requests@ == 1,
    {
        RpcRequests { next_id: 1 }
    }

    /// The next request: its number and its message.
    pub fn request(&mut self, method: &str, params: Json) -> (sent: (u64, Json))
        ensures
            sent.0 == old(self)@,
            sent.1@ == request_json(old(self)@, method@, params@),
            final(self)@ == protocol::saturated(old(self)@, 1),
    {
        let id = self.next_id;
        self.next_id = self.next_id.saturating_add(1);
        let mut message: Vec<(String, Json)> = Vec::new();
        put(&mut message, "jsonrpc", Json::text("2.0"));
        put(&mut message, "id", Json::unsigned(id));
        put(&mut message, "method", Json::text(method));
        put(&mut message, "params", params);
        (id, Json::Object(message))
    }
}

/// A message that asks for no answer.
pub fn notify(method: &str, params: Option<Json>) -> (message: Json)
    ensures
        message@ == notification_json(
            method@,
            match params {
                Some(p) => Some(p@),
                None => None,
            },
        ),
{
    let mut message: Vec<(String, Json)> = Vec::new();
    put(&mut message, "jsonrpc", Json::text("2.0"));
    put(&mut message, "method", Json::text(method));
    if let Some(params) = params {
        put(&mut message, "params", params);
    }
    Json::Object(message)
}

/// What is told a server about a request that took too long.
pub fn cancellation(id: u64) -> (message: Json)
    ensures
        message@ == cancellation_json(id),
{
    let mut params: Vec<(String, Json)> = Vec::new();
    put(&mut params, "requestId", Json::unsigned(id));
    put(&mut params, "reason", Json::text("CodeHelm request timeout"));
    notify("notifications/cancelled", Some(Json::Object(params)))
}

/// The error of a request that took too long.
pub fn timeout_error(method: &str, millis: u128) -> (message: String)
    ensures
        message@ == "request "@ + method@ + " timed out after "@ + text::decimal_text(
            millis as nat,
        ) + "ms"@,
{
    cat5("request ", method, " timed out after ", decimal(millis).as_str(), "ms")
}

/// The line of a message, or why there is none.
pub fn message_line(message: &Json) -> (line: Result<Vec<u8>, String>)
    ensures
        match line {
            Ok(l) => json::json_bytes(message@) matches Ok(bytes) && l@ == bytes.push(10u8)
                && !bytes.contains(10u8),
            Err(e) => json::json_bytes(message@) == Err::<Seq<u8>, Seq<char>>(e@),
        },
{
    match encode(message) {
        Ok(bytes) => {
            let mut line = bytes;
            line.push(10);
            Ok(line)
        },
        Err(error) => Err(error),
    }
}

/// What a message means to someone who waits for the answer to a request.
#[derive(Debug, PartialEq)]
pub enum RpcEvent {
    /// It is the answer.
    Answer { result: Result<Json, String> },
    /// It is a request, to be answered with this; then wait on.
    Refuse { message: Json },
    /// It is something else: wait on.
    Ignore,
}

/// What a message means, in the model.
#[verifier::ext_equal]
pub enum RpcEventV {
    Answer { result: Result<JsonV, Seq<char>> },
    Refuse { message: JsonV },
    Ignore,
}

impl View for RpcEvent {
    type V = RpcEventV;

    open spec fn view(&self) -> RpcEventV {
        match *self {
            RpcEvent::Answer { result } => RpcEventV::Answer { result: json::parsed(result) },
            RpcEvent::Refuse { message } => RpcEventV::Refuse { message: message@ },
            RpcEvent::Ignore => RpcEventV::Ignore,
        }
    }
}

/// What a message means to someone who waits for the answer to request `id`.
pub open spec fn message_meaning(id: u64, message: JsonV) -> RpcEventV {
    if message.at("id"@).unsigned() == Some(id) {
        RpcEventV::Answer {
            result: match message.get("error"@) {
                Some(error) => Err("JSON-RPC error: "@ + json::json_text(error)),
                None => match message.get("result"@) {
                    Some(result) => Ok(result),
                    None => Err("JSON-RPC response omitted result"@),
                },
            },
        }
    } else if message.get("id"@) is Some && message.at("method"@) is Text {
        RpcEventV::Refuse { message: refusal_json(message.at("id"@)) }
    } else {
        RpcEventV::Ignore
    }
}

/// Tells what a message means to someone who waits for the answer to request `id`.
pub fn wait_for_response(id: u64, message: &Json) -> (event: RpcEvent)
    ensures
        event@ == message_meaning(id, message@),
{
    let answers = match message.at("id").as_u64() {
        Some(n) => n == id,
        None => false,
    };
    if answers {
        let result = match message.get("error") {
            Some(error) => Err(cat2("JSON-RPC error: ", render(error).as_str())),
            None => match message.get("result") {
                Some(result) => Ok(result.clone()),
                None => Err("JSON-RPC response omitted result".to_owned()),
            },
        };
        RpcEvent::Answer { result }
    } else if message.get("id").is_some() && message.at("method").is_string() {
        let mut error: Vec<(String, Json)> = Vec::new();
        put(&mut error, "code", Json::Number(number_from_i64(-32601)));
        put(&mut error, "message", Json::text("Client method not supported"));
        let mut reply: Vec<(String, Json)> = Vec::new();
        put(&mut reply, "jsonrpc", Json::text("2.0"));
        put(&mut reply, "id", message.at("id").clone());
        put(&mut reply, "error", Json::Object(error));
        RpcEvent::Refuse { message: Json::Object(reply) }
    } else {
        RpcEvent::Ignore
    }
}

/// Only an answer to the request that is waited for ends the waiting, and every request of the
/// server is answered under its own number.
pub proof fn law_answers_match_requests(id: u64, message: JsonV)
    ensures
        message_meaning(id, message) is Answer <==> message.at("id"@).unsigned() == Some(id),
        message_meaning(id, message) matches RpcEventV::Refuse { message: reply } ==> reply.at(
            "id"@,
        ) == message.at("id"@),
{
    reveal_strlit("id");
    reveal_strlit("error");
    reveal_strlit("jsonrpc");
    assert("id"@.len() == 2 && "error"@.len() == 5 && "jsonrpc"@.len() == 7);
}

/// A message that is being read, up to the end of its line.
pub struct MessageBuffer {
    line: Vec<u8>,
}

impl View for MessageBuffer {
    type V = Seq<u8>;

    closed spec fn view(&self) -> Seq<u8> {
        self.line@
    }
}

/// How many of the bytes that are there belong to the message: those up to the end of the line.
pub open spec fn wanted_bytes(available: Seq<u8>) -> nat {
    match text::find(available, seq![10u8]) {
        Some(i) => i + 1,
        None => available.len(),
    }
}

/// What reading on comes to.
#[derive(Debug, PartialEq, Eq)]
pub struct Taken {
    /// How many bytes were taken.
    pub count: usize,
    /// Whether the line is complete.
    pub complete: bool,
}

/// Why a message cannot be read on, if it cannot.
pub open spec fn reading_fault(line: Seq<u8>, available: Seq<u8>) -> Option<Seq<char>> {
    if available.len() == 0 {
        Some("MCP server closed stdout"@)
    } else if line.len() + wanted_bytes(available) > MAX_MESSAGE_BYTES {
        Some(
            "MCP message exceeded "@ + text::decimal_text(MAX_MESSAGE_BYTES as nat) + " bytes"@,
        )
    } else {
        None
    }
}

impl MessageBuffer {
    /// A message of which nothing was read.
    pub fn new() -> (buffer: Self)
        ensures
            buffer@ == Seq::<u8>::empty(),
    {
        MessageBuffer { line: Vec::new() }
    }

    /// Takes the bytes of the message from those that are there.
    pub fn take(&mut self, available: &[u8]) -> (taken: Result<Taken, String>)
        requires
            old(self)@.len() <= MAX_MESSAGE_BYTES,
        ensures
            match taken {
                Ok(t) => {
                    &&& reading_fault(old(self)@, available@) is None
                    &&& t.count == wanted_bytes(available@)
                    &&& final(self)@ == old(self)@ + available@.take(t.count as int)
                    &&& t.complete == (final(self)@.last() == 10)
                },
                Err(e) => {
                    &&& reading_fault(old(self)@, available@) == Some(e@)
                    &&& final(self)@ == old(self)@
                },
            },
            final(self)@.len() <= MAX_MESSAGE_BYTES,
    {
        if available.len() == 0 {
            return Err("MCP server closed stdout".to_owned());
        }
        let feed: [u8; 1] = [10];
        assert(feed@ == seq![10u8]);
        proof {
            stream::lemma_feed(available@);
        }
        let length = available.len();
        let count = match find_bytes(available, &feed) {
            Some(i) => i + 1,
            None => length,
        };
        if count > MAX_MESSAGE_BYTES - self.line.len() {
            return Err(
                cat3(
                    "MCP message exceeded ",
                    decimal(MAX_MESSAGE_BYTES as u128).as_str(),
                    " bytes",
                ),
            );
        }
        for i in 0..count
            invariant
                count <= available.len(),
                self.line@ == old(self)@ + available@.take(i as int),
        {
            self.line.push(available[i]);
            assert(available@.take(i + 1) == available@.take(i as int).push(available@[i as int]));
        }
        let complete = self.line[self.line.len() - 1] == 10;
        Ok(Taken { count, complete })
    }

    /// The message, once its line is complete.
    pub fn message(self) -> (message: Result<Json, String>)
        ensures
            json::parsed(message) == line_message(json::json_of_bytes(self@)),
    {
        read_line(parse_bytes(self.line.as_slice()))
    }
}

/// What the line of a message says, given what parsing it gave.
pub open spec fn line_message(parsed: Result<JsonV, Seq<char>>) -> Result<JsonV, Seq<char>> {
    match parsed {
        Ok(message) => Ok(message),
        Err(error) => Err("invalid MCP JSON: "@ + error),
    }
}

/// What the line of a message says, given what parsing it gave.
pub fn read_line(parsed: Result<Json, String>) -> (message: Result<Json, String>)
    ensures
        json::parsed(message) == line_message(json::parsed(parsed)),
{
    match parsed {
        Ok(message) => Ok(message),
        Err(error) => Err(cat2("invalid MCP JSON: ", error.as_str())),
    }
}

/// The line of a message is read as one message: its line feed is its only one, and its last byte.
pub proof fn law_a_line_is_one_message(bytes: Seq<u8>)
    requires
        !bytes.contains(10u8),
    ensures
        wanted_bytes(bytes.push(10u8)) == bytes.len() + 1,
{
    let line = bytes.push(10u8);
    stream::lemma_feed(line);
    assert(line[bytes.len() as int] == 10);
    if let Some(k) = text::find(line, seq![10u8]) {
        if k < bytes.len() {
            assert(bytes[k as int] == 10);
            assert(bytes.contains(10u8));
        }
    }
}

/// A message is read alike in one piece and in several: a piece that ends before the line does is
/// taken whole, and what is taken after it makes up the same line.
pub proof fn law_pieces_do_not_matter(bytes: Seq<u8>, cut: int)
    requires
        0 <= cut < wanted_bytes(bytes),
    ensures
        wanted_bytes(bytes.take(cut)) == cut,
        cut + wanted_bytes(bytes.skip(cut)) == wanted_bytes(bytes),
{
    let front = bytes.take(cut);
    let back = bytes.skip(cut);
    stream::lemma_feed(bytes);
    stream::lemma_feed(front);
    stream::lemma_feed(back);
    if let Some(k) = text::find(front, seq![10u8]) {
        assert(bytes[k as int] == 10);
    }
    if let Some(k) = text::find(bytes, seq![10u8]) {
        assert(back[k - cut] == 10);
        if let Some(b) = text::find(back, seq![10u8]) {
            assert(bytes[cut + b] == 10);
        }
    } else if let Some(b) = text::find(back, seq![10u8]) {
        assert(bytes[cut + b] == 10);
    }
}

/// What is asked of a server at first.
pub open spec fn initialize_json(version: Seq<char>) -> JsonV {
    JsonV::Object(
        map![
            "protocolVersion"@ => JsonV::Text(asked_version()),
            "capabilities"@ => JsonV::Object(Map::empty()),
            "clientInfo"@ => JsonV::Object(
                map![
                    "name"@ => JsonV::Text("codehelm"@),
                    "version"@ => JsonV::Text(version),
                ],
            ),
        ],
    )
}

/// What is asked of a server at first, by a client of a version.
pub fn initialize_params(version: &str) -> (params: Json)
    ensures
        params@ == initialize_json(version@),
{
    let mut info: Vec<(String, Json)> = Vec::new();
    put(&mut info, "name", Json::text("codehelm"));
    put(&mut info, "version", Json::text(version));
    let mut params: Vec<(String, Json)> = Vec::new();
    put(&mut params, "protocolVersion", Json::text("2025-11-25"));
    put(&mut params, "capabilities", Json::empty_object());
    put(&mut params, "clientInfo", Json::Object(info));
    Json::Object(params)
}

/// What is wrong with a server's first answer, if something is.
pub open spec fn initialize_fault(server: Seq<char>, answer: Result<JsonV, Seq<char>>) -> Option<
    ErrorV,
> {
    match answer {
        Err(error) => Some(server_error(server, error)),
        Ok(result) => match result.at("protocolVersion"@).text() {
            None => Some(server_error(server, "initialize omitted protocolVersion"@)),
            Some(version) => if !is_supported(version) {
                Some(
                    server_error(server, "unsupported negotiated protocol version "@ + version),
                )
            } else if !(result.at("capabilities"@).at("tools"@) is Object) {
                Some(server_error(server, "server does not advertise tools"@))
            } else {
                None
            },
        },
    }
}

/// Checks a server's first answer.
pub fn initialize(server: &str, answer: Result<Json, String>) -> (result: Result<(), AgentError>)
    ensures
        match result {
            Ok(()) => initialize_fault(server@, json::parsed(answer)) is None,
            Err(error) => initialize_fault(server@, json::parsed(answer)) == Some(error@),
        },
{
    let result = match answer {
        Ok(result) => result,
        Err(error) => {
            return Err(mcp_error(server, error));
        },
    };
    match result.at("protocolVersion").as_str() {
        None => Err(mcp_error(server, "initialize omitted protocolVersion".to_owned())),
        Some(version) => {
            let supported = same_text(version, "2025-11-25") || same_text(version, "2025-06-18")
                || same_text(version, "2024-11-05");
            if !supported {
                Err(
                    mcp_error(
                        server,
                        cat2("unsupported negotiated protocol version ", version),
                    ),
                )
            } else if !result.at("capabilities").at("tools").is_object() {
                Err(mcp_error(server, "server does not advertise tools".to_owned()))
            } else {
                Ok(())
            }
        },
    }
}

/// A tool of a server.
#[derive(Debug, PartialEq)]
pub struct McpTool {
    pub name: String,
    pub description: Option<String>,
    pub input_schema: Json,
}

/// A tool of a server, in the model.
#[verifier::ext_equal]
pub struct McpToolV {
    pub name: Seq<char>,
    pub description: Option<Seq<char>>,
    pub input_schema: JsonV,
}

impl View for McpTool {
    type V = McpToolV;

    open spec fn view(&self) -> McpToolV {
        McpToolV {
            name: self.name@,
            description: protocol::optional_text(self.description),
            input_schema: self.input_schema@,
        }
    }
}

/// What tools of a server say.
pub open spec fn tool_views(tools: Seq<McpTool>) -> Seq<McpToolV> {
    tools.map_values(|tool: McpTool| tool@)
}

/// The tools with one more, in the order of their names.
pub open spec fn with_tool(tools: Seq<McpToolV>, tool: McpToolV) -> Seq<McpToolV>
    decreases tools.len(),
{
    if tools.len() == 0 || !text::text_lt(tool.name, tools.last().name) {
        tools.push(tool)
    } else {
        with_tool(tools.drop_last(), tool).push(tools.last())
    }
}

/// Whether a tool has a name.
pub open spec fn is_listed(tools: Seq<McpToolV>, name: Seq<char>) -> bool {
    exists|i: int| 0 <= i < tools.len() && (#[trigger] tools[i]).name == name
}

/// A tool as a server describes it, or what is wrong with that.
pub open spec fn described_tool(server: Seq<char>, tool: JsonV) -> Result<McpToolV, ErrorV> {
    match tool.at("name"@).text() {
        None => Err(server_error(server, "server returned invalid tool name"@)),
        Some(name) => if !is_tool_name(name) {
            Err(server_error(server, "server returned invalid tool name"@))
        } else if !(tool.at("inputSchema"@) is Object) {
            Err(server_error(server, "tool "@ + name + " has invalid inputSchema"@))
        } else {
            Ok(
                McpToolV {
                    name,
                    description: tool.at("description"@).text(),
                    input_schema: tool.at("inputSchema"@),
                },
            )
        },
    }
}

/// The tools so far and the first `n` of a page, or the first that is refused.
pub open spec fn with_page(
    server: Seq<char>,
    tools: Seq<McpToolV>,
    page: Seq<JsonV>,
    n: nat,
) -> Result<Seq<McpToolV>, ErrorV>
    decreases n,
{
    if n == 0 {
        Ok(tools)
    } else {
        match with_page(server, tools, page, (n - 1) as nat) {
            Err(error) => Err(error),
            Ok(front) => match described_tool(server, page[n - 1]) {
                Err(error) => Err(error),
                Ok(tool) => if is_listed(front, tool.name) {
                    Err(server_error(server, "duplicate tool "@ + tool.name))
                } else {
                    Ok(with_tool(front, tool))
                },
            },
        }
    }
}

proof fn lemma_with_page_stops(
    server: Seq<char>,
    tools: Seq<McpToolV>,
    page: Seq<JsonV>,
    i: nat,
    n: nat,
)
    requires
        i <= n,
        with_page(server, tools, page, i) is Err,
    ensures
        with_page(server, tools, page, n) == with_page(server, tools, page, i),
    decreases n,
{
    if i < n {
        lemma_with_page_stops(server, tools, page, i, (n - 1) as nat);
    }
}

/// The tools of a server that are being listed, page by page.
pub struct ToolList {
    server: String,
    tools: Vec<McpTool>,
    cursors: Vec<String>,
}

/// The tools of a server that are being listed, in the model.
#[verifier::ext_equal]
pub struct ToolListV {
    pub server: Seq<char>,
    pub tools: Seq<McpToolV>,
    pub cursors: Seq<Seq<char>>,
}

impl View for ToolList {
    type V = ToolListV;

    closed spec fn view(&self) -> ToolListV {
        ToolListV {
            server: self.server@,
            tools: tool_views(self.tools@),
            cursors: text::views(self.cursors@),
        }
    }
}

/// What to do after a page.
#[derive(Debug, PartialEq)]
pub enum ListStep {
    /// Ask for the next page with these parameters.
    Request { params: Json },
    /// Nothing: all tools are listed.
    Done,
    /// Nothing: the server is refused.
    Failed { error: AgentError },
}

/// What to do after a page, in the model.
#[verifier::ext_equal]
pub enum ListStepV {
    Request { params: JsonV },
    Done,
    Failed { error: ErrorV },
}

impl View for ListStep {
    type V = ListStepV;

    open spec fn view(&self) -> ListStepV {
        match *self {
            ListStep::Request { params } => ListStepV::Request { params: params@ },
            ListStep::Done => ListStepV::Done,
            ListStep::Failed { error } => ListStepV::Failed { error: error@ },
        }
    }
}

/// What a page makes of a list of tools: its tools are added, and a cursor that was not given before
/// leads to the next page.
pub open spec fn page_step(list: ToolListV, answer: Result<JsonV, Seq<char>>) -> (
    ToolListV,
    ListStepV,
) {
    match answer {
        Err(error) => (list, ListStepV::Failed { error: server_error(list.server, error) }),
        Ok(result) => match result.at("tools"@).list() {
            None => (
                list,
                ListStepV::Failed {
                    error: server_error(list.server, "tools/list omitted tools array"@),
                },
            ),
            Some(page) => match with_page(list.server, list.tools, page, page.len()) {
                Err(error) => (list, ListStepV::Failed { error }),
                Ok(tools) => match result.at("nextCursor"@).text() {
                    None => (ToolListV { tools, ..list }, ListStepV::Done),
                    Some(cursor) => if list.cursors.contains(cursor) {
                        (
                            ToolListV { tools, ..list },
                            ListStepV::Failed {
                                error: server_error(
                                    list.server,
                                    "tools/list repeated a cursor"@,
                                ),
                            },
                        )
                    } else {
                        (
                            ToolListV { tools, cursors: list.cursors.push(cursor), ..list },
                            ListStepV::Request {
                                params: JsonV::Object(map!["cursor"@ => JsonV::Text(cursor)]),
                            },
                        )
                    },
                },
            },
        },
    }
}

/// Reads a tool as a server describes it.
fn read_tool(server: &str, tool: &Json) -> (described: Result<McpTool, AgentError>)
    ensures
        match described {
            Ok(t) => described_tool(server@, tool@) == Ok::<McpToolV, ErrorV>(t@),
            Err(e) => described_tool(server@, tool@) == Err::<McpToolV, ErrorV>(e@),
        },
{
    let name = match tool.at("name").as_str() {
        Some(name) => name,
        None => {
            return Err(mcp_error(server, "server returned invalid tool name".to_owned()));
        },
    };
    if !valid_tool_name(name) {
        return Err(mcp_error(server, "server returned invalid tool name".to_owned()));
    }
    let schema = tool.at("inputSchema");
    if !schema.is_object() {
        return Err(mcp_error(server, cat3("tool ", name, " has invalid inputSchema")));
    }
    let description = match tool.at("description").as_str() {
        Some(d) => Some(d.to_owned()),
        None => None,
    };
    Ok(McpTool { name: name.to_owned(), description, input_schema: schema.clone() })
}

fn clone_tool(tool: &McpTool) -> (copy: McpTool)
    ensures
        copy@ == tool@,
{
    McpTool {
        name: tool.name.clone(),
        description: clone_optional(&tool.description),
        input_schema: tool.input_schema.clone(),
    }
}

/// Adds a tool in the order of the names.
fn insert_tool(tools: &mut Vec<McpTool>, tool: McpTool)
    ensures
        tool_views(final(tools)@) == with_tool(tool_views(old(tools)@), tool@),
{
    let ghost all = tool_views(tools@);
    let mut at = tools.len();
    assert(all.take(at as int) == all);
    while at > 0 && text_before(tool.name.as_str(), tools[at - 1].name.as_str())
        invariant
            at <= tools.len(),
            tools@ == old(tools)@,
            all == tool_views(tools@),
            with_tool(all, tool@) == with_tool(all.take(at as int), tool@) + all.skip(at as int),
        decreases at,
    {
        proof {
            let shorter = all.take(at - 1);
            assert(all.take(at as int).drop_last() == shorter);
            assert(all.take(at as int).last() == all[at - 1]);
            assert(with_tool(shorter, tool@).push(all[at - 1]) + all.skip(at as int) == with_tool(
                shorter,
                tool@,
            ) + all.skip(at - 1));
        }
        at -= 1;
    }
    proof {
        if at > 0 {
            assert(all.take(at as int).last() == all[at - 1]);
        }
    }
    tools.insert(at, tool);
    assert(tool_views(tools@) == all.take(at as int).push(tool@) + all.skip(at as int));
}

fn has_tool(tools: &Vec<McpTool>, name: &str) -> (found: bool)
    ensures
        found == is_listed(tool_views(tools@), name@),
{
    for i in 0..tools.len()
        invariant
            forall|j: int| 0 <= j < i ==> (#[trigger] tool_views(tools@)[j]).name != name@,
    {
        assert(tool_views(tools@)[i as int] == tools@[i as int]@);
        if same_text(tools[i].name.as_str(), name) {
            return true;
        }
    }
    false
}

impl ToolList {
    /// A list of the tools of a server, without any yet, and what to ask for the first page.
    pub fn new(server: &str) -> (list: (Self, Json))
        ensures
            list.0@ == (ToolListV { server: server@, tools: seq![], cursors: seq![] }),
            list.1@ == JsonV::Object(Map::empty()),
    {
        let list = ToolList { server: server.to_owned(), tools: Vec::new(), cursors: Vec::new() };
        assert(list@.tools == Seq::<McpToolV>::empty());
        assert(list@.cursors == Seq::<Seq<char>>::empty());
        (list, Json::empty_object())
    }

    /// The tools so far and those of a page.
    fn add_page(&self, page: &Vec<Json>) -> (tools: Result<Vec<McpTool>, AgentError>)
        ensures
            match tools {
                Ok(t) => with_page(
                    self@.server,
                    self@.tools,
                    json::array_view(page@),
                    page@.len(),
                ) == Ok::<Seq<McpToolV>, ErrorV>(tool_views(t@)),
                Err(e) => with_page(
                    self@.server,
                    self@.tools,
                    json::array_view(page@),
                    page@.len(),
                ) == Err::<Seq<McpToolV>, ErrorV>(e@),
            },
    {
        let ghost all = json::array_view(page@);
        proof {
            json::lemma_array_view(page@);
        }
        let mut tools: Vec<McpTool> = Vec::new();
        for i in 0..self.tools.len()
            invariant
                tool_views(tools@) == tool_views(self.tools@).take(i as int),
        {
            let ghost before = tools@;
            tools.push(clone_tool(&self.tools[i]));
            assert(tool_views(tools@) == tool_views(before).push(self.tools@[i as int]@));
        }
        assert(tool_views(tools@) == self@.tools);
        for i in 0..page.len()
            invariant
                all == json::array_view(page@),
                all.len() == page.len(),
                forall|j: int| 0 <= j < page.len() ==> #[trigger] all[j] == page@[j]@,
                with_page(self@.server, self@.tools, all, i as nat) == Ok::<Seq<McpToolV>, ErrorV>(
                    tool_views(tools@),
                ),
        {
            assert(all[i as int] == page@[i as int]@);
            match read_tool(self.server.as_str(), &page[i]) {
                Err(error) => {
                    proof {
                        lemma_with_page_stops(
                            self@.server,
                            self@.tools,
                            all,
                            (i + 1) as nat,
                            page@.len(),
                        );
                    }
                    return Err(error);
                },
                Ok(tool) => {
                    if has_tool(&tools, tool.name.as_str()) {
                        proof {
                            lemma_with_page_stops(
                                self@.server,
                                self@.tools,
                                all,
                                (i + 1) as nat,
                                page@.len(),
                            );
                        }
                        return Err(
                            mcp_error(
                                self.server.as_str(),
                                cat2("duplicate tool ", tool.name.as_str()),
                            ),
                        );
                    }
                    insert_tool(&mut tools, tool);
                },
            }
        }
        Ok(tools)
    }

    /// Takes a page in.
    pub fn list_tools(&mut self, answer: Result<Json, String>) -> (step: ListStep)
        ensures
            (final(self)@, step@) == page_step(old(self)@, json::parsed(answer)),
    {
        let result = match answer {
            Ok(result) => result,
            Err(error) => {
                return ListStep::Failed { error: mcp_error(self.server.as_str(), error) };
            },
        };
        let page = match result.at("tools").as_array() {
            Some(page) => page,
            None => {
                return ListStep::Failed {
                    error: mcp_error(
                        self.server.as_str(),
                        "tools/list omitted tools array".to_owned(),
                    ),
                };
            },
        };
        proof {
            json::lemma_array_view(page@);
        }
        match self.add_page(page) {
            Err(error) => {
                return ListStep::Failed { error };
            },
            Ok(tools) => {
                self.tools = tools;
            },
        }
        let cursor = match result.at("nextCursor").as_str() {
            Some(cursor) => cursor,
            None => {
                return ListStep::Done;
            },
        };
        if holds_text(&self.cursors, cursor) {
            return ListStep::Failed {
                error: mcp_error(
                    self.server.as_str(),
                    "tools/list repeated a cursor".to_owned(),
                ),
            };
        }
        let ghost before = self.cursors@;
        self.cursors.push(cursor.to_owned());
        assert(text::views(self.cursors@) == text::views(before).push(cursor@));
        let mut params: Vec<(String, Json)> = Vec::new();
        put(&mut params, "cursor", Json::text(cursor));
        ListStep::Request { params: Json::Object(params) }
    }

    /// The tools that were listed.
    pub fn into_tools(self) -> (tools: Vec<McpTool>)
        ensures
            tool_views(tools@) == self@.tools,
    {
        self.tools
    }
}

/// Whether tools stand in the order of their names, each name once.
pub open spec fn names_grow(tools: Seq<McpToolV>) -> bool {
    forall|i: int, j: int|
        0 <= i < j < tools.len() ==> text::text_lt(
            (#[trigger] tools[i]).name,
            (#[trigger] tools[j]).name,
        )
}

proof fn lemma_with_tool(tools: Seq<McpToolV>, tool: McpToolV)
    requires
        names_grow(tools),
        !is_listed(tools, tool.name),
    ensures
        names_grow(with_tool(tools, tool)),
        forall|i: int|
            0 <= i < with_tool(tools, tool).len() ==> {
                let found = #[trigger] with_tool(tools, tool)[i];
                found == tool || tools.contains(found)
            },
    decreases tools.len(),
{
    let whole = with_tool(tools, tool);
    if tools.len() > 0 {
        let front = tools.drop_last();
        let last = tools.last();
        assert(tools[tools.len() - 1].name != tool.name);
        text::lemma_text_lt_total(tool.name, last.name);
        if text::text_lt(tool.name, last.name) {
            assert forall|i: int, j: int| 0 <= i < j < front.len() implies text::text_lt(
                (#[trigger] front[i]).name,
                (#[trigger] front[j]).name,
            ) by {
                assert(front[i] == tools[i] && front[j] == tools[j]);
            }
            assert(!is_listed(front, tool.name)) by {
                if is_listed(front, tool.name) {
                    let i = choose|i: int|
                        0 <= i < front.len() && (#[trigger] front[i]).name == tool.name;
                    assert(tools[i].name == tool.name);
                }
            }
            lemma_with_tool(front, tool);
            let inner = with_tool(front, tool);
            assert forall|i: int| 0 <= i < inner.len() implies text::text_lt(
                (#[trigger] inner[i]).name,
                last.name,
            ) by {
                if inner[i] != tool {
                    let j = front.index_of(inner[i]);
                    assert(tools[j] == inner[i]);
                    assert(text::text_lt(tools[j].name, tools[tools.len() - 1].name));
                }
            }
            assert forall|i: int, j: int| 0 <= i < j < whole.len() implies text::text_lt(
                (#[trigger] whole[i]).name,
                (#[trigger] whole[j]).name,
            ) by {
                assert(whole[i] == inner[i]);
                if j < inner.len() {
                    assert(whole[j] == inner[j]);
                }
            }
            assert forall|i: int| 0 <= i < whole.len() implies {
                let found = #[trigger] whole[i];
                found == tool || tools.contains(found)
            } by {
                if i < inner.len() {
                    assert(whole[i] == inner[i]);
                    if inner[i] != tool {
                        let j = front.index_of(inner[i]);
                        assert(tools[j] == inner[i]);
                    }
                } else {
                    assert(tools[tools.len() - 1] == whole[i]);
                }
            }
        } else {
            assert forall|i: int, j: int| 0 <= i < j < whole.len() implies text::text_lt(
                (#[trigger] whole[i]).name,
                (#[trigger] whole[j]).name,
            ) by {
                assert(whole[i] == tools[i]);
                if j == tools.len() {
                    if i < tools.len() - 1 {
                        assert(text::text_lt(tools[i].name, tools[tools.len() - 1].name));
                        text::lemma_text_lt_transitive(tools[i].name, last.name, tool.name);
                    }
                } else {
                    assert(whole[j] == tools[j]);
                }
            }
            assert forall|i: int| 0 <= i < whole.len() implies {
                let found = #[trigger] whole[i];
                found == tool || tools.contains(found)
            } by {
                if i < tools.len() {
                    assert(tools[i] == whole[i]);
                }
            }
        }
    }
}

/// Tools in order: each name once, and every name of the right form.
pub open spec fn tools_in_order(tools: Seq<McpToolV>) -> bool {
    names_grow(tools) && forall|i: int|
        0 <= i < tools.len() ==> is_tool_name((#[trigger] tools[i]).name)
}

proof fn lemma_page_in_order(server: Seq<char>, tools: Seq<McpToolV>, page: Seq<JsonV>, n: nat)
    requires
        tools_in_order(tools),
        with_page(server, tools, page, n) is Ok,
    ensures
        tools_in_order(with_page(server, tools, page, n)->Ok_0),
    decreases n,
{
    if n > 0 {
        lemma_page_in_order(server, tools, page, (n - 1) as nat);
        let front = with_page(server, tools, page, (n - 1) as nat)->Ok_0;
        let tool = described_tool(server, page[n - 1])->Ok_0;
        let whole = with_tool(front, tool);
        lemma_with_tool(front, tool);
        assert forall|i: int| 0 <= i < whole.len() implies is_tool_name(
            (#[trigger] whole[i]).name,
        ) by {
            if whole[i] != tool {
                let j = front.index_of(whole[i]);
                assert(is_tool_name(front[j].name));
            }
        }
    }
}

/// Whatever pages a server sends, its tools stay in order and no cursor is followed twice, so that
/// the listing ends unless the server keeps making up new ones.
pub proof fn law_listing_stays_in_order(list: ToolListV, answer: Result<JsonV, Seq<char>>)
    requires
        tools_in_order(list.tools),
        list.cursors.no_duplicates(),
    ensures
        tools_in_order(page_step(list, answer).0.tools),
        page_step(list, answer).0.cursors.no_duplicates(),
        page_step(list, answer).1 is Request ==> page_step(list, answer).0.cursors.len()
            == list.cursors.len() + 1,
{
    if let Ok(result) = answer {
        if let Some(page) = result.at("tools"@).list() {
            if with_page(list.server, list.tools, page, page.len()) is Ok {
                lemma_page_in_order(list.server, list.tools, page, page.len());
            }
        }
    }
}

/// What a tool is called with.
pub fn call_params(name: &str, arguments: &Json) -> (params: Json)
    ensures
        params@ == JsonV::Object(
            map!["name"@ => JsonV::Text(name@), "arguments"@ => arguments@],
        ),
{
    let mut params: Vec<(String, Json)> = Vec::new();
    put(&mut params, "name", Json::text(name));
    put(&mut params, "arguments", arguments.clone());
    Json::Object(params)
}

/// The text of a piece of a tool's answer: its text, or all of it where it has none.
pub open spec fn piece_text(piece: JsonV) -> Seq<char> {
    match piece.at("text"@).text() {
        Some(t) => t,
        None => json::json_text(piece),
    }
}

/// What a tool's answer comes to.
pub open spec fn call_output(server: Seq<char>, answer: Result<JsonV, Seq<char>>) -> Result<
    Seq<char>,
    ErrorV,
> {
    match answer {
        Err(error) => Err(server_error(server, error)),
        Ok(result) => match result.at("content"@).list() {
            None => Err(server_error(server, "tools/call omitted content array"@)),
            Some(content) => {
                let output = text::join_text(
                    content.map_values(|piece: JsonV| piece_text(piece)),
                    "\n"@,
                );
                if result.at("isError"@) == JsonV::Bool(true) {
                    Err(server_error(server, output))
                } else if output.len() == 0 {
                    Ok("(empty MCP result)"@)
                } else {
                    Ok(output)
                }
            },
        },
    }
}

/// Tells what a tool's answer comes to.
pub fn call_result(server: &str, answer: Result<Json, String>) -> (output: Result<
    String,
    AgentError,
>)
    ensures
        error::text_result(output) == call_output(server@, json::parsed(answer)),
{
    let result = match answer {
        Ok(result) => result,
        Err(error) => {
            return Err(mcp_error(server, error));
        },
    };
    let content = match result.at("content").as_array() {
        Some(content) => content,
        None => {
            return Err(mcp_error(server, "tools/call omitted content array".to_owned()));
        },
    };
    let ghost pieces = json::array_view(content@);
    let ghost wanted = pieces.map_values(|piece: JsonV| piece_text(piece));
    proof {
        json::lemma_array_view(content@);
    }
    let mut texts: Vec<String> = Vec::new();
    for i in 0..content.len()
        invariant
            pieces.len() == content.len(),
            forall|j: int| 0 <= j < content.len() ==> #[trigger] pieces[j] == content@[j]@,
            wanted == pieces.map_values(|piece: JsonV| piece_text(piece)),
            text::views(texts@) == wanted.take(i as int),
    {
        let ghost before = texts@;
        assert(pieces[i as int] == content@[i as int]@);
        let piece = match content[i].at("text").as_str() {
            Some(t) => t.to_owned(),
            None => render(&content[i]),
        };
        texts.push(piece);
        assert(text::views(texts@) == text::views(before).push(piece@));
        assert(wanted.take(i + 1) == wanted.take(i as int).push(wanted[i as int]));
    }
    assert(wanted.take(content.len() as int) == wanted);
    let output = join(&texts, "\n");
    if result.at("isError").as_bool() == Some(true) {
        Err(mcp_error(server, output))
    } else if no_text(output.as_str()) {
        Ok("(empty MCP result)".to_owned())
    } else {
        Ok(output)
    }
}

/// Where a tool that is offered is: the server, by its number, and its name there.
#[derive(Debug, Clone, PartialEq, Eq)]
pub struct Route {
    pub client: usize,
    pub remote: String,
}

/// Where a tool that is offered is, in the model.
#[verifier::ext_equal]
pub struct RouteV {
    pub client: usize,
    pub remote: Seq<char>,
}

impl View for Route {
    type V = RouteV;

    open spec fn view(&self) -> RouteV {
        RouteV { client: self.client, remote: self.remote@ }
    }
}

/// The tools of all servers, as they are offered.
pub struct McpManager {
    clients: usize,
    routes: Vec<Route>,
    specs: Vec<ToolSpec>,
}

/// The tools of all servers, in the model: tool `i` is at route `i`.
#[verifier::ext_equal]
pub struct ManagerV {
    pub clients: usize,
    pub routes: Seq<RouteV>,
    pub specs: Seq<ToolSpecV>,
}

/// What routes say.
pub open spec fn route_views(routes: Seq<Route>) -> Seq<RouteV> {
    routes.map_values(|route: Route| route@)
}

impl View for McpManager {
    type V = ManagerV;

    closed spec fn view(&self) -> ManagerV {
        ManagerV {
            clients: self.clients,
            routes: route_views(self.routes@),
            specs: protocol::spec_views(self.specs@),
        }
    }
}

/// The name under which a tool of a server is offered.
pub open spec fn exposed_name(server: Seq<char>, tool: Seq<char>) -> Seq<char> {
    "mcp__"@ + server + "__"@ + tool
}

/// How a tool of a server is offered.
pub open spec fn exposed_spec(server: Seq<char>, tool: McpToolV) -> ToolSpecV {
    ToolSpecV {
        name: exposed_name(server, tool.name),
        description: "MCP server `"@ + server + "`: "@ + match tool.description {
            Some(description) => description,
            None => "No description provided"@,
        },
        input_schema: tool.input_schema,
    }
}

/// Where the tool with a name is among those that are offered.
pub open spec fn spec_index(specs: Seq<ToolSpecV>, name: Seq<char>) -> Option<nat>
    decreases specs.len(),
{
    if specs.len() == 0 {
        None
    } else if specs.last().name == name {
        Some((specs.len() - 1) as nat)
    } else {
        spec_index(specs.drop_last(), name)
    }
}

/// What is offered with the first `n` tools of a server, or why they are refused.
pub open spec fn with_server(
    manager: ManagerV,
    server: Seq<char>,
    tools: Seq<McpToolV>,
    n: nat,
) -> Result<ManagerV, ErrorV>
    decreases n,
{
    if n == 0 {
        Ok(manager)
    } else {
        match with_server(manager, server, tools, (n - 1) as nat) {
            Err(error) => Err(error),
            Ok(front) => {
                let tool = tools[n - 1];
                let offered = exposed_spec(server, tool);
                if spec_index(front.specs, offered.name) is Some {
                    Err(server_error(server, "duplicate exposed tool name"@))
                } else {
                    Ok(
                        ManagerV {
                            routes: front.routes.push(
                                RouteV { client: manager.clients, remote: tool.name },
                            ),
                            specs: front.specs.push(offered),
                            ..front
                        },
                    )
                }
            },
        }
    }
}

proof fn lemma_with_server_stops(
    manager: ManagerV,
    server: Seq<char>,
    tools: Seq<McpToolV>,
    i: nat,
    n: nat,
)
    requires
        i <= n,
        with_server(manager, server, tools, i) is Err,
    ensures
        with_server(manager, server, tools, n) == with_server(manager, server, tools, i),
    decreases n,
{
    if i < n {
        lemma_with_server_stops(manager, server, tools, i, (n - 1) as nat);
    }
}

/// What is offered is in order: every tool has a route, no name is offered twice, and the routes
/// lead to servers that exist.
pub open spec fn offered_in_order(manager: ManagerV) -> bool {
    &&& manager.routes.len() == manager.specs.len()
    &&& forall|i: int, j: int|
        0 <= i < j < manager.specs.len() ==> (#[trigger] manager.specs[i]).name != (
        #[trigger] manager.specs[j]).name
    &&& forall|i: int|
        0 <= i < manager.routes.len() ==> (#[trigger] manager.routes[i]).client < manager.clients
}

/// The index of a name is that of the tool with that name.
pub proof fn lemma_spec_index(specs: Seq<ToolSpecV>, name: Seq<char>)
    ensures
        match spec_index(specs, name) {
            Some(i) => i < specs.len() && specs[i as int].name == name,
            None => forall|i: int| 0 <= i < specs.len() ==> (#[trigger] specs[i]).name != name,
        },
    decreases specs.len(),
{
    if specs.len() > 0 {
        lemma_spec_index(specs.drop_last(), name);
        if spec_index(specs, name) is None {
            assert forall|i: int| 0 <= i < specs.len() implies (#[trigger] specs[i]).name
                != name by {
                if i < specs.len() - 1 {
                    assert(specs.drop_last()[i] == specs[i]);
                }
            }
        }
    }
}

proof fn lemma_server_in_order(
    manager: ManagerV,
    server: Seq<char>,
    tools: Seq<McpToolV>,
    n: nat,
)
    requires
        offered_in_order(manager),
        manager.clients < usize::MAX,
        with_server(manager, server, tools, n) is Ok,
    ensures
        ({
            let grown = with_server(manager, server, tools, n)->Ok_0;
            &&& grown.clients == manager.clients
            &&& offered_in_order(ManagerV { clients: (manager.clients + 1) as usize, ..grown })
        }),
    decreases n,
{
    if n > 0 {
        lemma_server_in_order(manager, server, tools, (n - 1) as nat);
        let front = with_server(manager, server, tools, (n - 1) as nat)->Ok_0;
        lemma_spec_index(front.specs, exposed_name(server, tools[n - 1].name));
    }
}

impl McpManager {
    /// No server yet.
    pub fn new() -> (manager: Self)
        ensures
            manager@ == (ManagerV { clients: 0, routes: seq![], specs: seq![] }),
            offered_in_order(manager@),
    {
        let manager = McpManager { clients: 0, routes: Vec::new(), specs: Vec::new() };
        assert(manager@.routes == Seq::<RouteV>::empty());
        assert(manager@.specs == Seq::<ToolSpecV>::empty());
        manager
    }

    fn find_spec(&self, name: &str) -> (index: Option<usize>)
        ensures
            match index {
                Some(i) => i < self.specs.len() && spec_index(self@.specs, name@) == Some(
                    i as nat,
                ),
                None => spec_index(self@.specs, name@) is None,
            },
    {
        let ghost all = self@.specs;
        let mut i = self.specs.len();
        assert(all.take(i as int) == all);
        while i > 0
            invariant
                i <= self.specs.len(),
                all == self@.specs,
                spec_index(all, name@) == spec_index(all.take(i as int), name@),
            decreases i,
        {
            assert(all.take(i as int).drop_last() == all.take(i - 1));
            assert(all.take(i as int).last() == self.specs@[i - 1]@);
            i -= 1;
            if same_text(self.specs[i].name.as_str(), name) {
                return Some(i);
            }
        }
        None
    }

    /// Offers the tools of the next server. Where they are refused, so is the whole configuration:
    /// nothing is offered any more.
    pub fn connect(&mut self, server: &str, tools: &Vec<McpTool>) -> (result: Result<
        (),
        AgentError,
    >)
        requires
            offered_in_order(old(self)@),
            old(self)@.clients < usize::MAX,
        ensures
            match with_server(old(self)@, server@, tool_views(tools@), tools@.len()) {
                Ok(grown) => {
                    &&& result is Ok
                    &&& final(self)@ == (ManagerV {
                        clients: (old(self)@.clients + 1) as usize,
                        ..grown
                    })
                },
                Err(error) => {
                    &&& result matches Err(e) && e@ == error
                    &&& final(self)@ == (ManagerV { clients: 0, routes: seq![], specs: seq![] })
                },
            },
            offered_in_order(final(self)@),
    {
        let ghost before = self@;
        let ghost all = tool_views(tools@);
        for i in 0..tools.len()
            invariant
                before == old(self)@,
                all == tool_views(tools@),
                with_server(before, server@, all, i as nat) == Ok::<ManagerV, ErrorV>(self@),
                self@.clients == before.clients,
        {
            let tool = &tools[i];
            assert(all[i as int] == tool@);
            let name = cat4("mcp__", server, "__", tool.name.as_str());
            if self.find_spec(name.as_str()).is_some() {
                proof {
                    lemma_with_server_stops(
                        before,
                        server@,
                        all,
                        (i + 1) as nat,
                        tools@.len(),
                    );
                }
                self.clients = 0;
                self.routes = Vec::new();
                self.specs = Vec::new();
                assert(self@.routes == Seq::<RouteV>::empty());
                assert(self@.specs == Seq::<ToolSpecV>::empty());
                return Err(mcp_error(server, "duplicate exposed tool name".to_owned()));
            }
            let description = match &tool.description {
                Some(d) => cat4("MCP server `", server, "`: ", d.as_str()),
                None => cat4("MCP server `", server, "`: ", "No description provided"),
            };
            let ghost routes = self.routes@;
            let ghost specs = self.specs@;
            let route = Route { client: self.clients, remote: tool.name.clone() };
            self.routes.push(route);
            let spec_entry = ToolSpec {
                name,
                description,
                input_schema: tool.input_schema.clone(),
            };
            self.specs.push(spec_entry);
            assert(spec_entry@ == exposed_spec(server@, tool@));
            assert(route_views(self.routes@) == route_views(routes).push(route@));
            assert(protocol::spec_views(self.specs@) == protocol::spec_views(specs).push(
                spec_entry@,
            ));
        }
        proof {
            lemma_server_in_order(before, server@, all, tools@.len());
        }
        self.clients = self.clients + 1;
        Ok(())
    }

    /// The tools that are offered.
    pub fn specs(&self) -> (specs: &Vec<ToolSpec>)
        ensures
            protocol::spec_views(specs@) == self@.specs,
    {
        &self.specs
    }

    /// Whether a tool is offered.
    pub fn contains(&self, name: &str) -> (offered: bool)
        ensures
            offered == spec_index(self@.specs, name@) is Some,
    {
        self.find_spec(name).is_some()
    }

    /// Where a tool that is offered is.
    pub fn call(&self, name: &str) -> (route: Result<Route, AgentError>)
        requires
            offered_in_order(self@),
        ensures
            match spec_index(self@.specs, name@) {
                Some(i) => route matches Ok(r) && r@ == self@.routes[i as int] && r.client
                    < self@.clients,
                None => route matches Err(error) && error@ == server_error(
                    name@,
                    "unknown MCP tool"@,
                ),
            },
    {
        match self.find_spec(name) {
            Some(i) => {
                assert(self@.routes[i as int] == self.routes@[i as int]@);
                Ok(
                    Route {
                        client: self.routes[i].client,
                        remote: self.routes[i].remote.clone(),
                    },
                )
            },
            None => Err(mcp_error(name, "unknown MCP tool".to_owned())),
        }
    }
}

/// A tool that is offered leads back to itself: its name is one server's tool, at the route that was
/// recorded with it.
pub proof fn law_offered_tools_have_routes(manager: ManagerV, i: int)
    requires
        offered_in_order(manager),
        0 <= i < manager.specs.len(),
    ensures
        spec_index(manager.specs, manager.specs[i].name) == Some(i as nat),
        manager.routes[i].client < manager.clients,
{
    lemma_spec_index(manager.specs, manager.specs[i].name);
}

/// Every tool of a server that is connected is offered: under a name made of the server's and its
/// own, with its description or a word on why there is none, with exactly the input schema that the
/// server gave, and at a route that leads to that server and that tool. What was offered before
/// stays as it was.
pub proof fn law_connected_tools_are_offered(
    manager: ManagerV,
    server: Seq<char>,
    tools: Seq<McpToolV>,
    n: nat,
)
    requires
        n <= tools.len(),
        manager.routes.len() == manager.specs.len(),
        with_server(manager, server, tools, n) is Ok,
    ensures
        ({
            let grown = with_server(manager, server, tools, n)->Ok_0;
            let from = manager.specs.len() as int;
            &&& grown.specs.len() == from + n
            &&& grown.routes.len() == from + n
            &&& grown.specs.take(from) == manager.specs
            &&& grown.routes.take(from) == manager.routes
            &&& forall|i: int|
                0 <= i < n ==> {
                    let offered = #[trigger] grown.specs[from + i];
                    let tool = tools[i];
                    &&& offered.input_schema == tool.input_schema
                    &&& offered.name == "mcp__"@ + server + "__"@ + tool.name
                    &&& tool.description matches Some(description) ==> offered.description
                        == "MCP server `"@ + server + "`: "@ + description
                    &&& tool.description is None ==> offered.description == "MCP server `"@ + server
                        + "`: "@ + "No description provided"@
                }
            &&& forall|i: int|
                0 <= i < n ==> #[trigger] grown.routes[from + i] == (RouteV {
                    client: manager.clients,
                    remote: tools[i].name,
                })
        }),
    decreases n,
{
    if n > 0 {
        let m = (n - 1) as nat;
        law_connected_tools_are_offered(manager, server, tools, m);
        let front = with_server(manager, server, tools, m)->Ok_0;
        let grown = with_server(manager, server, tools, n)->Ok_0;
        let from = manager.specs.len() as int;
        assert(grown.specs.take(from) == front.specs.take(from));
        assert(grown.routes.take(from) == front.routes.take(from));
        assert forall|i: int| 0 <= i < m implies #[trigger] grown.specs[from + i]
            == front.specs[from + i] by {}
        assert forall|i: int| 0 <= i < m implies #[trigger] grown.routes[from + i]
            == front.routes[from + i] by {}
    }
}

/// A server is refused exactly where one of its tools would be offered under a name that is taken,
/// by a tool of another server or by one of its own.
pub proof fn law_names_are_offered_once(
    manager: ManagerV,
    server: Seq<char>,
    tools: Seq<McpToolV>,
    n: nat,
)
    requires
        n <= tools.len(),
        manager.routes.len() == manager.specs.len(),
    ensures
        with_server(manager, server, tools, n) is Ok <==> forall|i: int, k: int|
            0 <= i < n && 0 <= k < manager.specs.len() + i ==> {
                let name = "mcp__"@ + server + "__"@ + (#[trigger] tools[i]).name;
                if k < manager.specs.len() {
                    (#[trigger] manager.specs[k]).name != name
                } else {
                    "mcp__"@ + server + "__"@ + tools[k - manager.specs.len()].name != name
                }
            },
    decreases n,
{
    if n > 0 {
        let m = (n - 1) as nat;
        law_names_are_offered_once(manager, server, tools, m);
        let from = manager.specs.len() as int;
        let name = "mcp__"@ + server + "__"@ + tools[n - 1].name;
        if with_server(manager, server, tools, m) is Ok {
            law_connected_tools_are_offered(manager, server, tools, m);
            let front = with_server(manager, server, tools, m)->Ok_0;
            lemma_spec_index(front.specs, name);
            assert forall|k: int| 0 <= k < from implies #[trigger] manager.specs[k]
                == front.specs[k] by {
                assert(front.specs.take(from)[k] == front.specs[k]);
            }
            if let Some(k) = spec_index(front.specs, name) {
                let k = k as int;
                if k < from {
                    assert(manager.specs[k].name == name);
                } else {
                    assert(front.specs[from + (k - from)].name == name);
                    assert(manager.specs[k] == manager.specs[k]);
                }
                assert(tools[n - 1].name == tools[n - 1].name);
            } else {
                assert forall|i: int, k: int| 0 <= i < n && 0 <= k < from + i implies {
                    let name = "mcp__"@ + server + "__"@ + (#[trigger] tools[i]).name;
                    if k < from {
                        (#[trigger] manager.specs[k]).name != name
                    } else {
                        "mcp__"@ + server + "__"@ + tools[k - from].name != name
                    }
                } by {
                    if i == n - 1 {
                        if k < from {
                            assert(front.specs[k].name != name);
                        } else {
                            assert(front.specs[from + (k - from)].name != name);
                        }
                    }
                }
            }
        }
    }
}

proof fn lemma_with_tool_holds(tools: Seq<McpToolV>, tool: McpToolV)
    ensures
        with_tool(tools, tool).len() == tools.len() + 1,
        with_tool(tools, tool).to_multiset() == tools.to_multiset().insert(tool),
    decreases tools.len(),
{
    broadcast use vstd::seq_lib::group_to_multiset_ensures;

    if tools.len() > 0 && text::text_lt(tool.name, tools.last().name) {
        lemma_with_tool_holds(tools.drop_last(), tool);
        let inner = with_tool(tools.drop_last(), tool);
        assert(tools == tools.drop_last().push(tools.last()));
        assert(inner.push(tools.last()).to_multiset() == inner.to_multiset().insert(tools.last()));
        assert(with_tool(tools, tool).to_multiset() == tools.to_multiset().insert(tool));
    }
}

/// A page adds each of its tools once, as the server described it, to those that were listed before,
/// and changes none of these.
pub proof fn law_pages_are_listed(
    server: Seq<char>,
    tools: Seq<McpToolV>,
    page: Seq<JsonV>,
    n: nat,
)
    requires
        n <= page.len(),
        with_page(server, tools, page, n) is Ok,
    ensures
        ({
            let listed = with_page(server, tools, page, n)->Ok_0;
            &&& listed.len() == tools.len() + n
            &&& forall|tool: McpToolV| #[trigger]
                tools.contains(tool) ==> listed.contains(tool)
            &&& forall|i: int|
                0 <= i < n ==> (#[trigger] page[i]).at("name"@) is Text && page[i].at(
                    "inputSchema"@,
                ) is Object && listed.contains(
                    McpToolV {
                        name: page[i].at("name"@)->Text_0,
                        description: match page[i].at("description"@) {
                            JsonV::Text(description) => Some(description),
                            _ => None,
                        },
                        input_schema: page[i].at("inputSchema"@),
                    },
                )
        }),
    decreases n,
{
    if n > 0 {
        let m = (n - 1) as nat;
        law_pages_are_listed(server, tools, page, m);
        let front = with_page(server, tools, page, m)->Ok_0;
        let tool = described_tool(server, page[n - 1])->Ok_0;
        lemma_with_tool_holds(front, tool);
        let listed = with_tool(front, tool);
        assert forall|one: McpToolV| front.contains(one) || one == tool implies #[trigger]
            listed.contains(one) by {
            broadcast use vstd::seq_lib::group_to_multiset_ensures;

            assert(listed.to_multiset().count(one) > 0) by {
                if front.contains(one) {
                    assert(front.to_multiset().count(one) > 0);
                }
            }
        }
        assert forall|one: McpToolV| #[trigger] tools.contains(one) implies listed.contains(
            one,
        ) by {
            assert(front.contains(one));
        }
    }
}

/// The answer to a request is handed on as it is: a result that comes without an error is the
/// result, and an error is told with all that it says.
pub proof fn law_results_are_handed_on(id: u64, message: JsonV)
    requires
        message.at("id"@).unsigned() == Some(id),
    ensures
        message.get("error"@) matches Some(error) ==> message_meaning(id, message) == (
        RpcEventV::Answer { result: Err("JSON-RPC error: "@ + json::json_text(error)) }),
        message.get("error"@) is None ==> (message.get("result"@) matches Some(result)
            ==> message_meaning(id, message) == (RpcEventV::Answer { result: Ok(result) })),
        message.get("error"@) is None && message.get("result"@) is None ==> message_meaning(
            id,
            message,
        ) == (RpcEventV::Answer { result: Err("JSON-RPC response omitted result"@) }),
{
}

/// A message that is no answer to the request that is waited for is refused where it asks for
/// something, under its own number and with the code for unknown methods, and passed over else.
pub proof fn law_foreign_requests_are_refused(id: u64, message: JsonV)
    requires
        message.at("id"@).unsigned() != Some(id),
    ensures
        message.get("id"@) is Some && message.at("method"@) is Text <==> message_meaning(
            id,
            message,
        ) is Refuse,
        message_meaning(id, message) matches RpcEventV::Refuse { message: reply } ==> {
            &&& reply.at("jsonrpc"@) == JsonV::Text("2.0"@)
            &&& reply.at("id"@) == message.at("id"@)
            &&& reply.at("error"@).at("code"@) == JsonV::Number(json::signed_number(-32601i64))
            &&& reply.at("error"@).at("message"@) == JsonV::Text("Client method not supported"@)
        },
        !(message_meaning(id, message) is Answer),
{
    reveal_strlit("id");
    reveal_strlit("error");
    reveal_strlit("jsonrpc");
    reveal_strlit("code");
    reveal_strlit("message");
    assert("id"@.len() == 2 && "error"@.len() == 5 && "jsonrpc"@.len() == 7 && "code"@.len() == 4
        && "message"@.len() == 7);
}

/// A request says its number, its method and its parameters; a notification has no number, and has
/// parameters only where some were given.
pub proof fn law_messages_say_what_is_asked(id: u64, method: Seq<char>, params: JsonV)
    ensures
        ({
            let request = request_json(id, method, params);
            &&& request.at("jsonrpc"@) == JsonV::Text("2.0"@)
            &&& request.at("id"@) == json::unsigned_json(id)
            &&& request.at("method"@) == JsonV::Text(method)
            &&& request.at("params"@) == params
        }),
        ({
            let notification = notification_json(method, Some(params));
            &&& notification.at("jsonrpc"@) == JsonV::Text("2.0"@)
            &&& notification.get("id"@) is None
            &&& notification.at("method"@) == JsonV::Text(method)
            &&& notification.at("params"@) == params
        }),
        notification_json(method, None).get("params"@) is None,
        notification_json(method, None).get("id"@) is None,
        notification_json(method, None).at("method"@) == JsonV::Text(method),
        notification_json(method, None).at("jsonrpc"@) == JsonV::Text("2.0"@),
        ({
            let cancelled = cancellation_json(id);
            &&& cancelled.get("id"@) is None
            &&& cancelled.at("method"@) == JsonV::Text("notifications/cancelled"@)
            &&& cancelled.at("params"@).at("requestId"@) == json::unsigned_json(id)
        }),
{
    reveal_strlit("jsonrpc");
    reveal_strlit("id");
    reveal_strlit("method");
    reveal_strlit("params");
    reveal_strlit("requestId");
    reveal_strlit("reason");
    assert("jsonrpc"@.len() == 7 && "id"@.len() == 2 && "method"@.len() == 6 && "params"@.len()
        == 6 && "requestId"@.len() == 9 && "reason"@.len() == 6);
    assert("method"@[0] != "params"@[0]);
}

/// A server is taken on exactly where its first answer names a version of the protocol that is
/// understood, and tools among what it can do.
pub proof fn law_servers_are_taken_on(server: Seq<char>, answer: Result<JsonV, Seq<char>>)
    ensures
        initialize_fault(server, answer) is None <==> (answer matches Ok(result) && {
            &&& result.at("protocolVersion"@) == JsonV::Text("2025-11-25"@) || result.at(
                "protocolVersion"@,
            ) == JsonV::Text("2025-06-18"@) || result.at("protocolVersion"@) == JsonV::Text(
                "2024-11-05"@,
            )
            &&& result.at("capabilities"@).at("tools"@) is Object
        }),
        initialize_fault(server, answer) matches Some(error) ==> (error matches ErrorV::Tool {
            tool,
            ..
        } && tool == "mcp:"@ + server),
{
}

/// A tool's answer is the texts of its pieces, a line each; a piece without a text counts as it is
/// written. Where the server says that the tool failed, the same text is the error.
pub proof fn law_tool_answers_are_joined(
    server: Seq<char>,
    result: JsonV,
    texts: Seq<Seq<char>>,
)
    requires
        result.at("content"@) is Array,
        texts.len() == result.at("content"@)->Array_0.len(),
        forall|i: int|
            0 <= i < texts.len() ==> #[trigger] texts[i] == match result.at(
                "content"@,
            )->Array_0[i].at("text"@) {
                JsonV::Text(said) => said,
                _ => json::json_text(result.at("content"@)->Array_0[i]),
            },
    ensures
        ({
            let output = text::join_text(texts, "\n"@);
            let answer = call_output(server, Ok(result));
            &&& result.at("isError"@) == JsonV::Bool(true) ==> answer == Err::<Seq<char>, ErrorV>(
                ErrorV::Tool { tool: "mcp:"@ + server, message: output },
            )
            &&& result.at("isError"@) != JsonV::Bool(true) && output.len() > 0 ==> answer == Ok::<
                Seq<char>,
                ErrorV,
            >(output)
            &&& result.at("isError"@) != JsonV::Bool(true) && output.len() == 0 ==> answer == Ok::<
                Seq<char>,
                ErrorV,
            >("(empty MCP result)"@)
        }),
{
    let content = result.at("content"@)->Array_0;
    assert(content.map_values(|piece: JsonV| piece_text(piece)) == texts);
}

/// The message that is read ends with the first line feed, or has all bytes where there is none.
pub proof fn law_messages_end_with_their_line(available: Seq<u8>)
    ensures
        wanted_bytes(available) <= available.len(),
        forall|i: int|
            0 <= i < wanted_bytes(available) - 1 ==> #[trigger] available[i] != 10,
        wanted_bytes(available) < available.len() ==> wanted_bytes(available) > 0
            && available[wanted_bytes(available) - 1] == 10,
{
    stream::lemma_feed(available);
}

/// The next page is asked for with the cursor that the last one gave; without a cursor the listing is
/// done.
pub proof fn law_cursors_are_followed(list: ToolListV, result: JsonV)
    requires
        !(page_step(list, Ok(result)).1 is Failed),
    ensures
        result.at("nextCursor"@) matches JsonV::Text(cursor) ==> {
            &&& !list.cursors.contains(cursor)
            &&& page_step(list, Ok(result)).0.cursors == list.cursors.push(cursor)
            &&& page_step(list, Ok(result)).1 matches ListStepV::Request { params } && params.at(
                "cursor"@,
            ) == JsonV::Text(cursor)
        },
        !(result.at("nextCursor"@) is Text) ==> page_step(list, Ok(result)).1 is Done,
        page_step(list, Ok(result)).0.server == list.server,
        result.at("tools"@) is Array,
        page_step(list, Ok(result)).0.tools.len() == list.tools.len() + result.at(
            "tools"@,
        )->Array_0.len(),
{
    let page = result.at("tools"@)->Array_0;
    law_pages_are_listed(list.server, list.tools, page, page.len());
}

/// The variables of the environment that a server gets to see, besides those that are configured
/// for it.
pub fn base_environment() -> (names: Vec<String>)
    ensures
        text::views(names@) == seq![
            "PATH"@,
            "HOME"@,
            "USERPROFILE"@,
            "TMPDIR"@,
            "TEMP"@,
            "TMP"@,
        ],
{
    let mut names: Vec<String> = Vec::new();
    names.push("PATH".to_owned());
    names.push("HOME".to_owned());
    names.push("USERPROFILE".to_owned());
    names.push("TMPDIR".to_owned());
    names.push("TEMP".to_owned());
    names.push("TMP".to_owned());
    assert(text::views(names@) == seq![
        "PATH"@,
        "HOME"@,
        "USERPROFILE"@,
        "TMPDIR"@,
        "TEMP"@,
        "TMP"@,
    ]);
    names
}

/// The version that a server is asked for is one that is understood, and every other one that is
/// understood is an earlier one.
pub proof fn law_the_asked_version_is_understood(version: Seq<char>)
    ensures
        asked_version() == "2025-11-25"@,
        is_supported(asked_version()),
        is_supported(version) && version != asked_version() ==> version == "2025-06-18"@ || version
            == "2024-11-05"@,
        version == "2025-06-18"@ || version == "2024-11-05"@ ==> is_supported(version),
{
}

/// A tool has a name of one to a hundred and twenty-eight bytes, of letters and digits of ASCII,
/// underscores, hyphens and dots; nothing else is a name.
pub proof fn law_tool_names_are_plain(name: Seq<char>)
    ensures
        is_tool_name(name) <==> {
            &&& 1 <= vstd::utf8::encode_utf8(name).len() <= 128
            &&& forall|i: int|
                0 <= i < name.len() ==> {
                    let c = #[trigger] name[i];
                    'a' <= c <= 'z' || 'A' <= c <= 'Z' || '0' <= c <= '9' || c == '_' || c == '-'
                        || c == '.'
                }
        },
{
}

/// Only a message that ends or is too long cannot be read on, and each is told apart.
pub proof fn law_long_messages_are_refused(line: Seq<u8>, available: Seq<u8>)
    ensures
        available.len() == 0 ==> reading_fault(line, available) == Some("MCP server closed stdout"@),
        available.len() > 0 && !available.contains(10u8) ==> (reading_fault(line, available) is Some
            <==> line.len() + available.len() > 1_048_576),
        available.len() > 0 && line.len() + available.len() <= 1_048_576 ==> reading_fault(
            line,
            available,
        ) is None,
{
    law_messages_end_with_their_line(available);
    assert(wanted_bytes(available) <= available.len());
}

} // verus!
