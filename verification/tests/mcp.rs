use codehelm::json::{parse, Json};
use codehelm::mcp::{
    base_environment, call_params, call_result, cancellation, initialize, initialize_params,
    message_line, notify, read_line, timeout_error, valid_tool_name, wait_for_response, ListStep,
    McpManager, McpTool, MessageBuffer, RpcEvent, RpcRequests, ToolList, MAX_MESSAGE_BYTES,
};
use codehelm::AgentError;

fn json(text: &str) -> Json {
    parse(text).unwrap()
}

fn failed<T: std::fmt::Debug>(outcome: Result<T, AgentError>) -> String {
    match outcome {
        Err(AgentError::Tool { tool, message }) if tool == "mcp:s" => message,
        other => panic!("not a failure of the server: {other:?}"),
    }
}

struct Server<'a> {
    requests: RpcRequests,
    output: &'a [u8],
}

impl Server<'_> {
    fn ask(&mut self, method: &str, params: Json) -> Result<Json, String> {
        let (id, message) = self.requests.request(method, params);
        assert_eq!(message.at("method").as_str(), Some(method));
        assert!(message_line(&message).unwrap().ends_with(b"\n"));
        let mut buffer = MessageBuffer::new();
        loop {
            let available = &self.output[..self.output.len().min(16)];
            let taken = buffer.take(available)?;
            self.output = &self.output[taken.count..];
            if !taken.complete {
                continue;
            }
            match wait_for_response(id, &buffer.message()?) {
                RpcEvent::Answer { result } => return result,
                _ => buffer = MessageBuffer::new(),
            }
        }
    }
}

#[test]
fn negotiates_and_calls_a_stdio_tool() {
    let output = r#"{"jsonrpc":"2.0","id":1,"result":{"protocolVersion":"2025-11-25","capabilities":{"tools":{}},"serverInfo":{"name":"fake","version":"1"}}}
{"jsonrpc":"2.0","id":2,"result":{"tools":[{"name":"echo","description":"Echo text","inputSchema":{"type":"object","properties":{"text":{"type":"string"}},"required":["text"]}}]}}
{"jsonrpc":"2.0","id":3,"result":{"content":[{"type":"text","text":"hello from MCP"}],"isError":false}}
"#;
    let mut server = Server { requests: RpcRequests::new(), output: output.as_bytes() };
    let mut manager = McpManager::new();

    let answer = server.ask("initialize", initialize_params("0.1.0"));
    initialize("fixture", answer).unwrap();
    let (mut list, mut params) = ToolList::new("fixture");
    loop {
        match list.list_tools(server.ask("tools/list", params)) {
            ListStep::Request { params: next } => params = next,
            ListStep::Done => break,
            ListStep::Failed { error } => panic!("{error:?}"),
        }
    }
    manager.connect("fixture", &list.into_tools()).unwrap();

    assert_eq!(manager.specs().len(), 1);
    assert_eq!(manager.specs()[0].name, "mcp__fixture__echo");
    assert!(manager.contains("mcp__fixture__echo"));
    let route = manager.call("mcp__fixture__echo").unwrap();
    assert_eq!((route.client, route.remote.as_str()), (0, "echo"));
    let params = call_params(&route.remote, &json(r#"{"text":"hello"}"#));
    assert_eq!(params, json(r#"{"name":"echo","arguments":{"text":"hello"}}"#));
    let answer = server.ask("tools/call", params);
    assert_eq!(call_result("fixture", answer).unwrap(), "hello from MCP");
}

#[test]
fn validates_spec_tool_names() {
    assert!(valid_tool_name("admin.tools-list_2"));
    assert!(!valid_tool_name("contains spaces"));
    assert!(!valid_tool_name(""));
    assert!(!valid_tool_name(&"x".repeat(129)));
}

#[test]
fn tool_names_end_at_their_limit() {
    assert!(valid_tool_name(&"x".repeat(128)));
    assert!(!valid_tool_name("é"));
}

#[test]
fn requests_are_numbered() {
    let mut requests = RpcRequests::new();
    assert_eq!(
        requests.request("m", json("[]")),
        (1, json(r#"{"jsonrpc":"2.0","id":1,"method":"m","params":[]}"#))
    );
    assert_eq!(requests.request("m", Json::Null).0, 2);
    assert_eq!(notify("n", None), json(r#"{"jsonrpc":"2.0","method":"n"}"#));
    assert_eq!(
        notify("n", Some(json("{}"))),
        json(r#"{"jsonrpc":"2.0","method":"n","params":{}}"#)
    );
    assert_eq!(
        cancellation(7),
        json(
            r#"{"jsonrpc":"2.0","method":"notifications/cancelled",
                "params":{"requestId":7,"reason":"CodeHelm request timeout"}}"#
        )
    );
    assert_eq!(timeout_error("tools/call", 2000), "request tools/call timed out after 2000ms");
    assert_eq!(message_line(&json("\"a\\nb\"")).unwrap(), b"\"a\\nb\"\n");
}

#[test]
fn answers_are_told_from_other_messages() {
    let event = |text: &str| wait_for_response(3, &json(text));
    assert_eq!(event(r#"{"id":3,"result":null}"#), RpcEvent::Answer { result: Ok(Json::Null) });
    assert_eq!(
        event(r#"{"id":3}"#),
        RpcEvent::Answer { result: Err("JSON-RPC response omitted result".to_owned()) }
    );
    assert_eq!(
        event(r#"{"id":3,"error":{"code":1},"result":2}"#),
        RpcEvent::Answer { result: Err("JSON-RPC error: {\"code\":1}".to_owned()) }
    );
    assert_eq!(event(r#"{"id":4,"result":1}"#), RpcEvent::Ignore);
    assert_eq!(event(r#"{"method":"notifications/progress"}"#), RpcEvent::Ignore);
    assert_eq!(
        event(r#"{"id":"x","method":"roots/list"}"#),
        RpcEvent::Refuse {
            message: json(
                r#"{"jsonrpc":"2.0","id":"x",
                    "error":{"code":-32601,"message":"Client method not supported"}}"#
            )
        }
    );
}

#[test]
fn messages_end_with_a_line_and_have_a_limit() {
    let mut buffer = MessageBuffer::new();
    let taken = buffer.take(b"{\"a\":1}\n{\"b\"").unwrap();
    assert!(taken.complete);
    assert_eq!(taken.count, 8);
    assert_eq!(buffer.message(), Ok(json(r#"{"a":1}"#)));

    let mut buffer = MessageBuffer::new();
    assert_eq!(buffer.take(b"").unwrap_err(), "MCP server closed stdout");
    let taken = buffer.take(&vec![b' '; MAX_MESSAGE_BYTES]).unwrap();
    assert!(!taken.complete);
    assert_eq!(buffer.take(b"x").unwrap_err(), "MCP message exceeded 1048576 bytes");
    assert!(buffer.message().unwrap_err().starts_with("invalid MCP JSON: "));
    assert_eq!(read_line(Err("x".to_owned())), Err("invalid MCP JSON: x".to_owned()));
}

#[test]
fn servers_must_agree_on_a_version_and_have_tools() {
    let answer = |text: &str| initialize("s", Ok(json(text)));
    let tools = r#""capabilities":{"tools":{}}"#;
    for version in ["2025-11-25", "2025-06-18", "2024-11-05"] {
        assert_eq!(answer(&format!(r#"{{"protocolVersion":"{version}",{tools}}}"#)), Ok(()));
    }
    assert_eq!(failed(answer("{}")), "initialize omitted protocolVersion");
    assert_eq!(
        failed(answer(&format!(r#"{{"protocolVersion":"1",{tools}}}"#))),
        "unsupported negotiated protocol version 1"
    );
    assert_eq!(
        failed(answer(r#"{"protocolVersion":"2025-06-18","capabilities":{}}"#)),
        "server does not advertise tools"
    );
    assert_eq!(failed(initialize("s", Err("gone".to_owned()))), "gone");
    assert_eq!(
        initialize_params("1.2.3"),
        json(
            r#"{"protocolVersion":"2025-11-25","capabilities":{},
                "clientInfo":{"name":"codehelm","version":"1.2.3"}}"#
        )
    );
}

fn listing(pages: &[&str]) -> Result<Vec<McpTool>, AgentError> {
    let (mut list, first) = ToolList::new("s");
    assert_eq!(first, json("{}"));
    for page in pages {
        match list.list_tools(Ok(json(page))) {
            ListStep::Request { params } => {
                assert_eq!(params.at("cursor"), json(page).at("nextCursor"));
            }
            ListStep::Done => return Ok(list.into_tools()),
            ListStep::Failed { error } => return Err(error),
        }
    }
    panic!("pages left to ask for")
}

#[test]
fn tools_of_all_pages_are_listed_by_name() {
    let tools = listing(&[
        r#"{"tools":[{"name":"b","inputSchema":{}}],"nextCursor":"2"}"#,
        r#"{"tools":[{"name":"a","inputSchema":{"type":"object"},"description":"A"}]}"#,
    ])
    .unwrap();
    assert_eq!(
        tools,
        vec![
            McpTool {
                name: "a".to_owned(),
                description: Some("A".to_owned()),
                input_schema: json(r#"{"type":"object"}"#),
            },
            McpTool { name: "b".to_owned(), description: None, input_schema: json("{}") },
        ]
    );
}

#[test]
fn broken_listings_are_errors() {
    assert_eq!(failed(listing(&["{}"])), "tools/list omitted tools array");
    assert_eq!(
        failed(listing(&[r#"{"tools":[{"name":"a b"}]}"#])),
        "server returned invalid tool name"
    );
    assert_eq!(
        failed(listing(&[r#"{"tools":[{"name":"a","inputSchema":[]}]}"#])),
        "tool a has invalid inputSchema"
    );
    let twice = r#"{"tools":[{"name":"a","inputSchema":{}},{"name":"a","inputSchema":{}}]}"#;
    assert_eq!(failed(listing(&[twice])), "duplicate tool a");
    let page = r#"{"tools":[],"nextCursor":"2"}"#;
    assert_eq!(failed(listing(&[page, page])), "tools/list repeated a cursor");
    let (mut list, _) = ToolList::new("s");
    let ListStep::Failed { error } = list.list_tools(Err("gone".to_owned())) else {
        panic!("not failed")
    };
    assert_eq!(failed::<()>(Err(error)), "gone");
}

#[test]
fn call_results_are_joined() {
    let answer = |text: &str| call_result("s", Ok(json(text)));
    assert_eq!(
        answer(r#"{"content":[{"text":"a"},{"type":"image","data":"x"},{"text":""}]}"#),
        Ok("a\n{\"data\":\"x\",\"type\":\"image\"}\n".to_owned())
    );
    assert_eq!(answer(r#"{"content":[]}"#), Ok("(empty MCP result)".to_owned()));
    assert_eq!(failed(answer(r#"{"content":[{"text":"no"}],"isError":true}"#)), "no");
    assert_eq!(failed(answer("{}")), "tools/call omitted content array");
    assert_eq!(failed(call_result("s", Err("gone".to_owned()))), "gone");
}

fn tool(name: &str) -> McpTool {
    McpTool { name: name.to_owned(), description: None, input_schema: json("{}") }
}

#[test]
fn offered_tools_lead_to_their_server() {
    let mut manager = McpManager::new();
    manager.connect("one", &vec![tool("x"), tool("y")]).unwrap();
    manager.connect("two", &vec![tool("x")]).unwrap();
    assert_eq!(manager.specs()[0].description, "MCP server `one`: No description provided");
    let route = manager.call("mcp__two__x").unwrap();
    assert_eq!((route.client, route.remote.as_str()), (1, "x"));
    assert!(!manager.contains("x"));
    assert_eq!(
        manager.call("x"),
        Err(AgentError::Tool { tool: "mcp:x".to_owned(), message: "unknown MCP tool".to_owned() })
    );
}

#[test]
fn clashing_names_are_refused() {
    let mut manager = McpManager::new();
    manager.connect("s__a", &vec![tool("b")]).unwrap();
    assert_eq!(
        failed(manager.connect("s", &vec![tool("a__b")])),
        "duplicate exposed tool name"
    );
}

#[test]
fn servers_see_a_small_environment() {
    assert_eq!(
        base_environment(),
        ["PATH", "HOME", "USERPROFILE", "TMPDIR", "TEMP", "TMP"]
    );
}
