use std::time::Duration;

use codehelm::json::{parse, render, Json};
use codehelm::protocol::{
    AgentAction, AgentEvent, ConversationItem, ModelRequest, Role, TokenUsage, ToolCallRequest,
    ToolSpec,
};
use codehelm::providers::anthropic::{anthropic_request, AnthropicProvider, AnthropicState};
use codehelm::providers::ollama::{ollama_request, OllamaProvider, OllamaState};
use codehelm::providers::openai::{openai_request, OpenAiProvider, OpenAiState};
use codehelm::providers::retry::{
    backoff_ms, retry_after_ms, retryable_error, retryable_status, send_with_retry, Attempt,
    ErrorBody, RetryPolicy, RetryStep, MAX_ERROR_BODY_BYTES,
};
use codehelm::providers::stream::{
    deliver, ensure_frame_limit, event_boundary, NdjsonBuffer, SseBuffer, MAX_PROVIDER_FRAME_BYTES,
};
use codehelm::providers::{parse_args, required_str, role_name, tool_action, ResponseState};
use codehelm::AgentError;
use reqwest::StatusCode;

fn json(text: &str) -> Json {
    parse(text).unwrap()
}

fn item(list: &Json, index: usize) -> &Json {
    &list.as_array().unwrap()[index]
}

fn call(id: &str, name: &str, args: &str) -> ConversationItem {
    ConversationItem::ToolCall { id: id.to_owned(), name: name.to_owned(), args: json(args) }
}

fn result(id: &str, output: &str) -> ConversationItem {
    ConversationItem::ToolResult { id: id.to_owned(), output: output.to_owned() }
}

fn said(role: Role, content: &str) -> ConversationItem {
    ConversationItem::Message { role, content: content.to_owned() }
}

fn failed<T: std::fmt::Debug>(outcome: Result<T, AgentError>) -> String {
    match outcome {
        Err(AgentError::Provider(message)) => message,
        other => panic!("not a provider failure: {other:?}"),
    }
}

#[test]
fn openai_events_normalize_tool_calls() {
    let mut state = OpenAiState::default();
    state
        .consume(
            &json(
                r#"{"type":"response.output_item.done","item":{
                    "type":"function_call","call_id":"call_1","name":"read_file",
                    "arguments":"{\"path\":\"README.md\"}"
                }}"#,
            ),
            &mut vec![],
        )
        .unwrap();
    assert!(
        matches!(state.finish().unwrap(), AgentAction::Tool { id, tool, .. } if id == "call_1" && tool == "read_file")
    );
}

#[test]
fn provider_frames_have_a_hard_memory_boundary() {
    assert!(ensure_frame_limit(&vec![0; MAX_PROVIDER_FRAME_BYTES]).is_ok());
    let error = ensure_frame_limit(&vec![0; MAX_PROVIDER_FRAME_BYTES + 1]).unwrap_err();
    assert!(error.describe().contains("frame exceeded"));
}

#[test]
fn provider_request_deadlines_are_configurable() {
    let timeout = Duration::from_millis(1234);
    assert_eq!(
        OpenAiProvider::new("key", "model").with_request_timeout(timeout).request_timeout,
        timeout
    );
    assert_eq!(
        AnthropicProvider::new("key", "model").with_request_timeout(timeout).request_timeout,
        timeout
    );
    assert_eq!(
        OllamaProvider::new("model").with_request_timeout(timeout).request_timeout,
        timeout
    );
}

#[test]
fn provider_usage_is_normalized() {
    let mut openai = OpenAiState::default();
    let mut openai_events = Vec::new();
    openai
        .consume(
            &json(
                r#"{"type":"response.completed","response":{"usage":{
                    "input_tokens":20,"output_tokens":7,
                    "input_tokens_details":{"cached_tokens":5},
                    "output_tokens_details":{"reasoning_tokens":3}
                }}}"#,
            ),
            &mut openai_events,
        )
        .unwrap();
    assert!(matches!(
        openai_events.as_slice(),
        [AgentEvent::Usage { usage }]
            if *usage == TokenUsage {
                input_tokens: 20,
                output_tokens: 7,
                cached_input_tokens: 5,
                reasoning_tokens: 3,
            }
    ));

    let mut anthropic = AnthropicState::default();
    let mut anthropic_events = Vec::new();
    anthropic
        .consume(
            &json(
                r#"{"type":"message_start","message":{"usage":{
                    "input_tokens":10,"cache_creation_input_tokens":4,
                    "cache_read_input_tokens":6
                }}}"#,
            ),
            &mut anthropic_events,
        )
        .unwrap();
    anthropic
        .consume(
            &json(r#"{"type":"message_delta","usage":{"output_tokens":8}}"#),
            &mut anthropic_events,
        )
        .unwrap();
    assert!(matches!(
        anthropic_events.as_slice(),
        [AgentEvent::Usage { usage }]
            if *usage == TokenUsage {
                input_tokens: 20,
                output_tokens: 8,
                cached_input_tokens: 6,
                reasoning_tokens: 0,
            }
    ));

    let mut ollama = OllamaState::default();
    let mut ollama_events = Vec::new();
    ollama
        .consume(
            &json(
                r#"{"message":{"content":"ok"},"done":true,
                    "prompt_eval_count":12,"eval_count":3}"#,
            ),
            &mut ollama_events,
        )
        .unwrap();
    assert!(ollama_events.iter().any(|event| matches!(
        event,
        AgentEvent::Usage { usage } if usage.input_tokens == 12 && usage.output_tokens == 3
    )));
}

#[test]
fn anthropic_partial_json_normalizes_tool_calls() {
    let mut state = AnthropicState::default();
    let mut events = vec![];
    state
        .consume(
            &json(
                r#"{"type":"content_block_start","content_block":{
                    "type":"tool_use","id":"tool_1","name":"read_file"
                }}"#,
            ),
            &mut events,
        )
        .unwrap();
    state
        .consume(
            &json(
                r#"{"type":"content_block_delta","delta":{
                    "type":"input_json_delta","partial_json":"{\"path\":\"README.md\"}"
                }}"#,
            ),
            &mut events,
        )
        .unwrap();
    assert!(
        matches!(state.finish().unwrap(), AgentAction::Tool { id, tool, .. } if id == "tool_1" && tool == "read_file")
    );
}

#[test]
fn request_keeps_tool_call_identity() {
    let request = ModelRequest {
        items: vec![call("call_1", "read_file", r#"{"path":"a"}"#), result("call_1", "text")],
        tools: vec![],
    };
    let body = openai_request("model", &request);
    assert_eq!(item(body.at("input"), 1).at("call_id").as_str(), Some("call_1"));
}

#[test]
fn ollama_chunks_normalize_text_and_tool_calls() {
    let mut text_state = OllamaState::default();
    let mut deltas = Vec::new();
    text_state
        .consume(&json(r#"{"message":{"content":"hello"},"done":false}"#), &mut deltas)
        .unwrap();
    assert_eq!(
        text_state.finish().unwrap(),
        AgentAction::Final { message: "hello".to_owned() }
    );
    assert!(matches!(&deltas[0], AgentEvent::ModelDelta { delta } if delta == "hello"));

    let mut tool_state = OllamaState::default();
    tool_state
        .consume(
            &json(
                r#"{"message":{"tool_calls":[{"function":{
                    "index":0,"name":"read_file","arguments":{"path":"README.md"}
                }}]},"done":true}"#,
            ),
            &mut vec![],
        )
        .unwrap();
    assert!(matches!(
        tool_state.finish().unwrap(),
        AgentAction::Tool { id, tool, args, .. }
            if id == "ollama-0" && tool == "read_file" && args.at("path").is_text("README.md")
    ));
}

#[test]
fn ollama_request_reconstructs_tool_result_name() {
    let request = ModelRequest {
        items: vec![
            call("internal-1", "search", r#"{"pattern":"needle"}"#),
            result("internal-1", "match"),
        ],
        tools: vec![],
    };
    let body = ollama_request("qwen3", &request);
    assert_eq!(item(body.at("messages"), 1).at("tool_name").as_str(), Some("search"));
    assert_eq!(body.at("stream").as_bool(), Some(true));
}

#[test]
fn ollama_results_are_named_after_the_nearest_call() {
    let request = ModelRequest {
        items: vec![
            call("ollama-0", "read_file", "{}"),
            result("ollama-0", "content"),
            call("ollama-0", "search", "{}"),
            result("ollama-0", "match"),
            result("ollama-1", "late"),
            call("ollama-1", "list_files", "{}"),
        ],
        tools: vec![],
    };
    let body = ollama_request("qwen3", &request);
    assert_eq!(item(body.at("messages"), 1).at("tool_name").as_str(), Some("read_file"));
    assert_eq!(item(body.at("messages"), 3).at("tool_name").as_str(), Some("search"));
    assert_eq!(item(body.at("messages"), 4).at("tool_name").as_str(), Some("unknown"));
}

#[test]
fn ollama_groups_batch_calls_into_one_assistant_message() {
    let request = ModelRequest {
        items: vec![call("a", "read_file", "{}"), call("b", "search", "{}")],
        tools: vec![],
    };
    let body = ollama_request("qwen3", &request);
    assert_eq!(body.at("messages").as_array().unwrap().len(), 1);
    assert_eq!(item(body.at("messages"), 0).at("tool_calls").as_array().unwrap().len(), 2);
}

#[test]
fn ollama_host_without_scheme_is_normalized() {
    let provider = OllamaProvider::with_base_url("model", "localhost:11434");
    assert_eq!(provider.base_url, "http://localhost:11434");
}

#[test]
fn openai_preserves_multiple_tool_calls() {
    let mut state = OpenAiState::default();
    for (id, name) in [("call_1", "read_file"), ("call_2", "search")] {
        state
            .consume(
                &json(&format!(
                    r#"{{"type":"response.output_item.done","item":{{
                        "type":"function_call","call_id":"{id}","name":"{name}","arguments":"{{}}"
                    }}}}"#
                )),
                &mut vec![],
            )
            .unwrap();
    }
    assert!(matches!(state.finish().unwrap(), AgentAction::Tools { calls } if calls.len() == 2));
}

#[test]
fn anthropic_keeps_arguments_separate_for_multiple_tools() {
    let mut state = AnthropicState::default();
    let mut events = vec![];
    for (index, id, name) in [(0, "one", "read_file"), (1, "two", "search")] {
        state
            .consume(
                &json(&format!(
                    r#"{{"type":"content_block_start","index":{index},"content_block":{{
                        "type":"tool_use","id":"{id}","name":"{name}"
                    }}}}"#
                )),
                &mut events,
            )
            .unwrap();
        state
            .consume(
                &json(&format!(
                    r#"{{"type":"content_block_delta","index":{index},"delta":{{
                        "type":"input_json_delta","partial_json":"{{}}"
                    }}}}"#
                )),
                &mut events,
            )
            .unwrap();
    }
    assert!(
        matches!(state.finish().unwrap(), AgentAction::Tools { calls } if calls.len() == 2 && calls[1].tool == "search")
    );
}

#[test]
fn retry_policy_is_bounded_and_status_specific() {
    assert!(retryable_status(StatusCode::REQUEST_TIMEOUT.as_u16()));
    assert!(retryable_status(StatusCode::TOO_MANY_REQUESTS.as_u16()));
    assert!(retryable_status(StatusCode::BAD_GATEWAY.as_u16()));
    assert!(!retryable_status(StatusCode::BAD_REQUEST.as_u16()));
    assert!(!retryable_status(StatusCode::UNAUTHORIZED.as_u16()));
    assert_eq!(backoff_ms(500, 0), 500);
    assert_eq!(backoff_ms(500, 3), 4_000);
    assert_eq!(backoff_ms(500, 20), 30_000);
}

#[test]
fn server_statuses_end_where_the_class_ends() {
    assert!(retryable_status(409));
    assert!(retryable_status(500));
    assert!(retryable_status(599));
    assert!(!retryable_status(499));
    assert!(!retryable_status(600));
    assert!(!retryable_status(200));
}

#[test]
fn only_connection_trouble_is_passing() {
    assert!(retryable_error(true, false));
    assert!(retryable_error(false, true));
    assert!(!retryable_error(false, false));
}

#[test]
fn servers_can_ask_for_a_delay() {
    assert_eq!(retry_after_ms(Some("2")), Some(2_000));
    assert_eq!(retry_after_ms(Some("+7")), Some(7_000));
    assert_eq!(retry_after_ms(Some("61")), Some(60_000));
    assert_eq!(retry_after_ms(Some("18446744073709551615")), Some(60_000));
    assert_eq!(retry_after_ms(Some("18446744073709551616")), None);
    assert_eq!(retry_after_ms(Some("Wed, 21 Oct 2015 07:28:00 GMT")), None);
    assert_eq!(retry_after_ms(Some("-1")), None);
    assert_eq!(retry_after_ms(Some("")), None);
    assert_eq!(retry_after_ms(None), None);
}

fn answered(status: u16, retry_after: Option<&str>) -> Attempt {
    Attempt::Answered {
        status,
        status_text: format!("{status} Some Reason"),
        retry_after: retry_after.map(str::to_owned),
    }
}

#[test]
fn attempts_are_waited_for_accepted_or_failed() {
    let policy = RetryPolicy::default();
    assert_eq!(policy, RetryPolicy { max_retries: 3, base_delay_ms: 500 });
    assert_eq!(
        send_with_retry(policy, 1, answered(503, None)),
        RetryStep::Wait {
            event: AgentEvent::ProviderRetry {
                attempt: 2,
                delay_ms: 1_000,
                reason: "HTTP 503 Some Reason".to_owned(),
            },
            delay_ms: 1_000,
        }
    );
    assert!(matches!(
        send_with_retry(policy, 0, answered(429, Some("4"))),
        RetryStep::Wait { delay_ms: 4_000, .. }
    ));
    assert_eq!(send_with_retry(policy, 3, answered(503, None)), RetryStep::Accept);
    assert_eq!(send_with_retry(policy, 0, answered(400, None)), RetryStep::Accept);
    let refused = |connect: bool| Attempt::Failed {
        message: "refused".to_owned(),
        connect,
        timeout: false,
    };
    assert_eq!(
        send_with_retry(policy, 2, refused(true)),
        RetryStep::Wait {
            event: AgentEvent::ProviderRetry {
                attempt: 3,
                delay_ms: 2_000,
                reason: "refused".to_owned(),
            },
            delay_ms: 2_000,
        }
    );
    let error = || AgentError::Provider("refused".to_owned());
    assert_eq!(send_with_retry(policy, 3, refused(true)), RetryStep::Fail { error: error() });
    assert_eq!(send_with_retry(policy, 0, refused(false)), RetryStep::Fail { error: error() });
}

#[test]
fn error_bodies_are_cut() {
    let mut body = ErrorBody::new();
    assert!(body.wants_more());
    body.add_chunk(b"no ");
    body.add_chunk(b"luck\xff");
    assert_eq!(
        body.into_error("404 Not Found"),
        AgentError::Provider("HTTP 404 Not Found: no luck\u{fffd}".to_owned())
    );
    let mut body = ErrorBody::new();
    body.add_chunk(&vec![b'a'; MAX_ERROR_BODY_BYTES - 1]);
    assert!(body.wants_more());
    body.add_chunk(b"bcd");
    assert!(!body.wants_more());
    let expected = format!("HTTP 500: {}b", "a".repeat(799));
    assert_eq!(body.into_error("500"), AgentError::Provider(expected));
}

#[test]
fn event_streams_are_cut_into_events_wherever_chunks_end() {
    let stream: &[u8] =
        b"event: x\r\ndata: {\"a\":1}\ndata:[DONE]\n\nid: 7\n\ndata: {\"b\":2} \n\ndata: {";
    for cut in 0..stream.len() {
        let mut buffer = SseBuffer::new();
        let mut values = vec![];
        for part in [&stream[..cut], &stream[cut..]] {
            let decoded = buffer.feed(part);
            assert_eq!(decoded.error, None);
            values.extend(decoded.values);
        }
        assert_eq!(values, vec![json(r#"{"a":1}"#), json(r#"{"b":2}"#)]);
    }
}

#[test]
fn carriage_returns_delimit_events_too() {
    let mut buffer = SseBuffer::new();
    let decoded = buffer.feed(b"data: 1\r\n\r\ndata: 2\r\n\r\n");
    assert_eq!(decoded.values, vec![json("1"), json("2")]);
    assert_eq!(event_boundary(b"a\r\n\r\nb\n\nc"), Some((6, 2)));
    assert_eq!(event_boundary(b"a\r\n\r\nb"), Some((1, 4)));
    assert_eq!(event_boundary(b"a\n"), None);
}

#[test]
fn broken_event_streams_are_errors_after_what_was_whole() {
    let decoded = SseBuffer::new().feed(b"data: 1\n\ndata: {\n\ndata: 2\n\n");
    assert_eq!(decoded.values, vec![json("1")]);
    let error = decoded.error.unwrap();
    assert!(error.describe().starts_with("provider failed: invalid SSE JSON: "));
    let decoded = SseBuffer::new().feed(b"data: \xff\n\n");
    let error = decoded.error.unwrap();
    assert!(error.describe().starts_with("provider failed: invalid SSE UTF-8: "));
    let decoded = SseBuffer::new().feed(&vec![b'x'; MAX_PROVIDER_FRAME_BYTES + 1]);
    assert_eq!(
        decoded.error,
        Some(AgentError::Provider("provider stream frame exceeded 1048576 bytes".to_owned()))
    );
}

#[test]
fn lines_are_cut_wherever_chunks_end() {
    let stream: &[u8] = b"{\"a\":1}\n \t\r\n{\"b\":2}\r\n{\"c\":3}";
    for cut in 0..stream.len() {
        let mut buffer = NdjsonBuffer::new();
        let mut values = vec![];
        for part in [&stream[..cut], &stream[cut..]] {
            let decoded = buffer.feed(part);
            assert_eq!(decoded.error, None);
            values.extend(decoded.values);
        }
        let decoded = buffer.finish();
        assert_eq!(decoded.error, None);
        values.extend(decoded.values);
        assert_eq!(values, vec![json(r#"{"a":1}"#), json(r#"{"b":2}"#), json(r#"{"c":3}"#)]);
    }
}

#[test]
fn broken_lines_are_errors() {
    let decoded = NdjsonBuffer::new().feed(b"1\n{\n2\n");
    assert_eq!(decoded.values, vec![json("1")]);
    let error = decoded.error.unwrap();
    assert!(error.describe().starts_with("provider failed: invalid NDJSON: "));
    let decoded = NdjsonBuffer::new().feed(&vec![b'1'; MAX_PROVIDER_FRAME_BYTES + 1]);
    assert!(decoded.error.unwrap().describe().contains("frame exceeded"));
    let decoded = NdjsonBuffer::new().finish();
    assert!(decoded.values.is_empty() && decoded.error.is_none());
}

#[test]
fn decoded_events_reach_the_state_in_order() {
    let mut state = OpenAiState::default();
    let mut events = vec![];
    let mut buffer = SseBuffer::new();
    let stream: &[u8] = b"data: {\"type\":\"response.output_text.delta\",\"delta\":\"a\"}\n\n\
        data: {\"type\":\"response.output_text.delta\",\"delta\":\"b\"}\n\ndata: {\n\n";
    let outcome = deliver(&mut state, buffer.feed(stream), &mut events);
    assert!(failed(outcome).starts_with("invalid SSE JSON: "));
    assert_eq!(
        events,
        vec![
            AgentEvent::ModelDelta { delta: "a".to_owned() },
            AgentEvent::ModelDelta { delta: "b".to_owned() },
        ]
    );
    assert_eq!(state.finish(), Ok(AgentAction::Final { message: "ab".to_owned() }));
}

#[test]
fn answers_with_nothing_are_errors() {
    assert_eq!(failed(OpenAiState::default().finish()), "OpenAI returned no text or tool call");
    assert_eq!(
        failed(AnthropicState::default().finish()),
        "Anthropic returned no text or tool call"
    );
    assert_eq!(failed(OllamaState::default().finish()), "Ollama returned no text or tool call");
}

#[test]
fn providers_report_failures() {
    let mut events = vec![];
    let text = r#"{"type":"response.failed"}"#;
    assert_eq!(failed(OpenAiState::default().consume(&json(text), &mut events)), text);
    let text = r#"{"type":"error"}"#;
    assert_eq!(failed(OpenAiState::default().consume(&json(text), &mut events)), text);
    assert_eq!(failed(AnthropicState::default().consume(&json(text), &mut events)), text);
    assert_eq!(
        failed(OllamaState::default().consume(&json(r#"{"error":"no model"}"#), &mut events)),
        "no model"
    );
    let item = r#"{"type":"response.output_item.done","item":{"type":"function_call"}}"#;
    assert_eq!(
        failed(OpenAiState::default().consume(&json(item), &mut events)),
        "provider event omitted call_id"
    );
    let delta = r#"{"type":"content_block_delta","index":4,
        "delta":{"type":"input_json_delta","partial_json":"{"}}"#;
    assert_eq!(
        failed(AnthropicState::default().consume(&json(delta), &mut events)),
        "Anthropic sent arguments for unknown tool block 4"
    );
    assert!(events.is_empty());
}

#[test]
fn openai_arguments_must_parse() {
    let event = |arguments: &str| {
        json(&format!(
            r#"{{"type":"response.output_item.done","item":{{"type":"function_call",
                "call_id":"c","name":"n"{arguments}}}}}"#
        ))
    };
    let mut state = OpenAiState::default();
    let outcome = state.consume(&event(r#","arguments":"{""#), &mut vec![]);
    assert!(failed(outcome).starts_with("invalid tool arguments: "));
    state.consume(&event(""), &mut vec![]).unwrap();
    assert_eq!(
        state.finish(),
        Ok(AgentAction::Tool {
            id: "c".to_owned(),
            tool: "n".to_owned(),
            args: Json::Object(vec![]),
            reason: None,
        })
    );
    assert_eq!(parse_args(r#"{"a":[1]}"#), Ok(json(r#"{"a":[1]}"#)));
}

#[test]
fn anthropic_blocks_come_out_in_order_of_their_index() {
    let mut state = AnthropicState::default();
    let mut events = vec![];
    for (index, id) in [(5, "late"), (2, "early")] {
        state
            .consume(
                &json(&format!(
                    r#"{{"type":"content_block_start","index":{index},"content_block":{{
                        "type":"tool_use","id":"{id}","name":"n"}}}}"#
                )),
                &mut events,
            )
            .unwrap();
    }
    for part in ["{\\\"a\\\"", ":1}"] {
        state
            .consume(
                &json(&format!(
                    r#"{{"type":"content_block_delta","index":5,"delta":{{
                        "type":"input_json_delta","partial_json":"{part}"}}}}"#
                )),
                &mut events,
            )
            .unwrap();
    }
    let AgentAction::Tools { calls } = state.finish().unwrap() else {
        panic!("not a batch")
    };
    assert_eq!(calls[0].id, "early");
    assert_eq!(calls[0].args, Json::Object(vec![]));
    assert_eq!(calls[1].id, "late");
    assert_eq!(calls[1].args, json(r#"{"a":1}"#));
}

#[test]
fn ollama_numbers_calls_that_have_no_index() {
    let mut state = OllamaState::default();
    state
        .consume(
            &json(
                r#"{"message":{"tool_calls":[{"function":{"name":"a"}},
                    {"function":{"name":"b","arguments":[]}},
                    {"function":{"name":"c","index":9}}]}}"#,
            ),
            &mut vec![],
        )
        .unwrap();
    let AgentAction::Tools { calls } = state.finish().unwrap() else {
        panic!("not a batch")
    };
    let ids: Vec<&str> = calls.iter().map(|call| call.id.as_str()).collect();
    assert_eq!(ids, ["ollama-0", "ollama-1", "ollama-9"]);
    assert_eq!(calls[0].args, Json::Null);
    assert_eq!(calls[1].args, Json::Array(vec![]));
}

fn conversation() -> ModelRequest {
    ModelRequest {
        items: vec![
            said(Role::System, "one"),
            said(Role::User, "hi"),
            said(Role::System, "two"),
            said(Role::Assistant, "hello"),
            call("c", "read", r#"{"p":1}"#),
            result("c", "out"),
            said(Role::User, "bye"),
        ],
        tools: vec![ToolSpec {
            name: "read".to_owned(),
            description: "Reads".to_owned(),
            input_schema: json(r#"{"type":"object"}"#),
        }],
    }
}

#[test]
fn openai_requests_look_as_they_should() {
    assert_eq!(
        openai_request("m", &conversation()),
        json(
            r#"{"model":"m","instructions":"one\n\ntwo","input":[
                {"role":"user","content":"hi"},
                {"role":"assistant","content":"hello"},
                {"type":"function_call","call_id":"c","name":"read","arguments":"{\"p\":1}"},
                {"type":"function_call_output","call_id":"c","output":"out"},
                {"role":"user","content":"bye"}],
                "tools":[{"type":"function","name":"read","description":"Reads",
                    "parameters":{"type":"object"},"strict":false}],
                "tool_choice":"auto","stream":true,"store":false}"#
        )
    );
}

#[test]
fn anthropic_requests_look_as_they_should() {
    assert_eq!(
        anthropic_request("m", 9, &conversation()),
        json(
            r#"{"model":"m","system":"one\n\ntwo","messages":[
                {"role":"user","content":[{"type":"text","text":"hi"}]},
                {"role":"assistant","content":[{"type":"text","text":"hello"},
                    {"type":"tool_use","id":"c","name":"read","input":{"p":1}}]},
                {"role":"user","content":[
                    {"type":"tool_result","tool_use_id":"c","content":"out"},
                    {"type":"text","text":"bye"}]}],
                "tools":[{"name":"read","description":"Reads","input_schema":{"type":"object"}}],
                "max_tokens":9,"stream":true}"#
        )
    );
}

#[test]
fn ollama_requests_look_as_they_should() {
    let body = ollama_request("m", &conversation());
    assert_eq!(
        body.at("messages"),
        &json(
            r#"[{"role":"system","content":"one"},{"role":"user","content":"hi"},
                {"role":"system","content":"two"},
                {"role":"assistant","content":"hello","tool_calls":null},
                {"role":"assistant","content":"","tool_calls":[
                    {"type":"function","function":{"name":"read","arguments":{"p":1}}}]},
                {"role":"tool","tool_name":"read","content":"out"},
                {"role":"user","content":"bye"}]"#
        )
    );
    assert_eq!(
        body.at("tools"),
        &json(
            r#"[{"type":"function","function":{"name":"read","description":"Reads",
                "parameters":{"type":"object"}}}]"#
        )
    );
    let unknown = ModelRequest { items: vec![result("x", "out")], tools: vec![] };
    let body = ollama_request("m", &unknown);
    assert_eq!(item(body.at("messages"), 0).at("tool_name").as_str(), Some("unknown"));
}

#[test]
fn endpoints_follow_the_base_url() {
    assert_eq!(OpenAiProvider::new("k", "m").endpoint(), "https://api.openai.com/v1/responses");
    assert_eq!(
        OpenAiProvider::with_base_url("k", "m", "http://gate/v1//").endpoint(),
        "http://gate/v1/responses"
    );
    let anthropic = AnthropicProvider::new("k", "m");
    assert_eq!(anthropic.endpoint(), "https://api.anthropic.com/v1/messages");
    assert_eq!(anthropic.max_tokens, 8_192);
    assert_eq!(anthropic.request_timeout, Duration::from_secs(300));
    assert_eq!(OllamaProvider::new("m").endpoint(), "http://127.0.0.1:11434/api/chat");
    assert_eq!(
        OllamaProvider::with_base_url("m", "https://host/").endpoint(),
        "https://host/api/chat"
    );
    let retry = RetryPolicy { max_retries: 1, base_delay_ms: 2 };
    assert_eq!(OllamaProvider::new("m").with_retry_policy(retry).retry, retry);
    assert_eq!(OpenAiProvider::new("k", "m").with_retry_policy(retry).retry, retry);
    assert_eq!(AnthropicProvider::new("k", "m").with_retry_policy(retry).retry, retry);
}

#[test]
fn one_call_is_a_tool_and_several_are_a_batch() {
    let request = |id: &str| ToolCallRequest {
        id: id.to_owned(),
        tool: "t".to_owned(),
        args: Json::Null,
        reason: Some("r".to_owned()),
    };
    assert_eq!(
        tool_action(vec![request("a")]),
        AgentAction::Tool {
            id: "a".to_owned(),
            tool: "t".to_owned(),
            args: Json::Null,
            reason: Some("r".to_owned()),
        }
    );
    assert_eq!(tool_action(vec![]), AgentAction::Tools { calls: vec![] });
    assert_eq!(role_name(Role::System), "system");
    assert_eq!(role_name(Role::User), "user");
    assert_eq!(role_name(Role::Assistant), "assistant");
    assert_eq!(required_str(&json(r#"{"f":"v"}"#), "f"), Ok("v".to_owned()));
    assert_eq!(failed(required_str(&json(r#"{"f":1}"#), "f")), "provider event omitted f");
    assert_eq!(render(&json(r#"{ "b": [1, null], "a": "x" }"#)), r#"{"a":"x","b":[1,null]}"#);
}

#[test]
fn events_with_carriage_returns_are_cut_wherever_chunks_end() {
    let stream: &[u8] = b"data: 1\r\n\r\nevent: x\r\ndata: 2\r\n\r\ndata: 3";
    for cut in 0..stream.len() {
        let mut buffer = SseBuffer::new();
        let mut values = vec![];
        for part in [&stream[..cut], &stream[cut..]] {
            let decoded = buffer.feed(part);
            assert_eq!(decoded.error, None);
            values.extend(decoded.values);
        }
        assert_eq!(values, vec![json("1"), json("2")]);
    }
}
