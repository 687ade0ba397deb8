use std::cell::RefCell;
use std::collections::VecDeque;
use std::rc::Rc;

use codehelm::agent::{
    Agent, AgentReply, AgentStep, ConversationStore, NoopStore, Progress, UsageTracker,
};
use codehelm::json::{parse, Json};
use codehelm::protocol::{
    AgentAction, AgentEvent, ConversationItem, Role, TokenUsage, ToolCallRequest, ToolSpec,
};
use codehelm::AgentError;

fn json(text: &str) -> Json {
    parse(text).unwrap()
}

struct Surroundings {
    actions: VecDeque<AgentAction>,
    before_answer: Vec<AgentEvent>,
    approve: bool,
    output: Result<String, AgentError>,
    executed: Vec<String>,
    events: Vec<AgentEvent>,
    requests: Vec<usize>,
}

impl Surroundings {
    fn new(actions: Vec<AgentAction>) -> Self {
        Surroundings {
            actions: VecDeque::from(actions),
            before_answer: vec![AgentEvent::ModelDelta { delta: "ok".to_owned() }],
            approve: true,
            output: Ok("contents".to_owned()),
            executed: vec![],
            events: vec![],
            requests: vec![],
        }
    }
}

fn copy_output(output: &Result<String, AgentError>) -> Result<String, AgentError> {
    match output {
        Ok(text) => Ok(text.clone()),
        Err(AgentError::Tool { tool, message }) => Err(AgentError::Tool {
            tool: tool.clone(),
            message: message.clone(),
        }),
        Err(_) => Err(AgentError::Cancelled),
    }
}

fn tools() -> Vec<ToolSpec> {
    vec![ToolSpec {
        name: "read_file".to_owned(),
        description: "Read a file".to_owned(),
        input_schema: json(r#"{"type": "object"}"#),
    }]
}

fn drive<S: ConversationStore>(
    agent: &mut Agent<S>,
    prompt: &str,
    around: &mut Surroundings,
) -> Result<String, AgentError> {
    let mut progress: Progress = agent.run(prompt);
    loop {
        around.events.append(&mut progress.events);
        let reply = match progress.step {
            AgentStep::ListTools => AgentReply::Tools { tools: tools() },
            AgentStep::Respond { request } => {
                assert_eq!(request.tools, tools());
                around.requests.push(request.items.len());
                let mut tracker = UsageTracker::new();
                for event in around.before_answer.drain(..) {
                    tracker.observe(&event);
                    around.events.push(event);
                }
                AgentReply::Response {
                    usage: tracker.usage,
                    action: Ok(around.actions.pop_front().expect("mock response")),
                }
            }
            AgentStep::Approve { .. } => AgentReply::Approval { approved: around.approve },
            AgentStep::Execute { tool, .. } => {
                around.executed.push(tool);
                AgentReply::Executed { result: copy_output(&around.output) }
            }
            AgentStep::Done { result } => return result,
        };
        progress = agent.resume(reply);
    }
}

fn call(id: &str) -> ToolCallRequest {
    ToolCallRequest { id: id.to_owned(), tool: "read_file".to_owned(), args: Json::Null, reason: None }
}

#[test]
fn executes_tool_and_finishes() {
    let mut around = Surroundings::new(vec![
        AgentAction::Tool {
            id: "call-1".to_owned(),
            tool: "read_file".to_owned(),
            args: json(r#"{"path": "README.md"}"#),
            reason: Some("inspect".to_owned()),
        },
        AgentAction::Final { message: "done".to_owned() },
    ]);
    let mut agent = Agent::new("system", 3);
    assert_eq!(drive(&mut agent, "task", &mut around).unwrap(), "done");
    assert!(around
        .events
        .iter()
        .any(|event| matches!(event, AgentEvent::ToolResult { result, .. } if result == "contents")));
    assert!(around
        .events
        .iter()
        .any(|event| matches!(event, AgentEvent::ModelDelta { delta } if delta == "ok")));
}

#[test]
fn stops_at_turn_limit() {
    let mut around = Surroundings::new(vec![AgentAction::Tool {
        id: "call-1".to_owned(),
        tool: "read_file".to_owned(),
        args: Json::Null,
        reason: None,
    }]);
    let mut agent = Agent::new("system", 1);
    assert!(matches!(
        drive(&mut agent, "task", &mut around),
        Err(AgentError::MaxTurns(1))
    ));
}

#[test]
fn preserves_and_executes_every_tool_in_a_batch() {
    let mut around = Surroundings::new(vec![
        AgentAction::Tools { calls: vec![call("a"), call("b")] },
        AgentAction::Final { message: "done".to_owned() },
    ]);
    let mut agent = Agent::new("system", 2);
    assert_eq!(drive(&mut agent, "task", &mut around).unwrap(), "done");
    assert_eq!(
        around
            .events
            .iter()
            .filter(|event| matches!(event, AgentEvent::ToolResult { .. }))
            .count(),
        2
    );
}

#[test]
fn token_budget_stops_before_tool_execution() {
    let mut around = Surroundings::new(vec![AgentAction::Tool {
        id: "blocked".to_owned(),
        tool: "read_file".to_owned(),
        args: Json::Null,
        reason: None,
    }]);
    around.before_answer = vec![AgentEvent::Usage {
        usage: TokenUsage { input_tokens: 8, output_tokens: 5, ..TokenUsage::default() },
    }];
    let mut agent = Agent::new("system", 2).with_token_budget(Some(10));
    assert!(matches!(
        drive(&mut agent, "task", &mut around),
        Err(AgentError::TokenBudget { limit: 10, used: 13 })
    ));
    assert!(!around
        .events
        .iter()
        .any(|event| matches!(event, AgentEvent::ToolStart { .. })));
}

#[test]
fn history_records_calls_and_results_in_order() {
    let mut around = Surroundings::new(vec![
        AgentAction::Tools { calls: vec![call(""), call("b")] },
        AgentAction::Final { message: "done".to_owned() },
    ]);
    let mut agent = Agent::new("system", 2);
    drive(&mut agent, "task", &mut around).unwrap();
    let ids: Vec<String> = agent
        .items()
        .iter()
        .map(|item| match item {
            ConversationItem::Message { content, .. } => content.clone(),
            ConversationItem::ToolCall { id, .. } => format!("call {id}"),
            ConversationItem::ToolResult { id, output } => format!("result {id} {output}"),
        })
        .collect();
    assert_eq!(
        ids,
        vec![
            "system",
            "task",
            "call codehelm-1-0",
            "call b",
            "result codehelm-1-0 contents",
            "result b contents",
            "done",
        ]
    );
}

#[test]
fn denied_tools_do_not_run() {
    let mut around = Surroundings::new(vec![
        AgentAction::Tools { calls: vec![call("a")] },
        AgentAction::Final { message: "done".to_owned() },
    ]);
    around.approve = false;
    let mut agent = Agent::new("system", 2);
    drive(&mut agent, "task", &mut around).unwrap();
    assert!(around.executed.is_empty());
    assert!(around.events.contains(&AgentEvent::ToolDenied {
        tool: "read_file".to_owned(),
        reason: "permission denied".to_owned(),
    }));
    assert!(agent.items().contains(&ConversationItem::ToolResult {
        id: "a".to_owned(),
        output: "permission denied".to_owned(),
    }));
}

#[test]
fn tool_errors_are_told_to_the_model() {
    let mut around = Surroundings::new(vec![
        AgentAction::Tools { calls: vec![call("a")] },
        AgentAction::Final { message: "done".to_owned() },
    ]);
    around.output = Err(AgentError::Tool { tool: "read_file".to_owned(), message: "gone".to_owned() });
    let mut agent = Agent::new("system", 2);
    drive(&mut agent, "task", &mut around).unwrap();
    assert!(agent.items().contains(&ConversationItem::ToolResult {
        id: "a".to_owned(),
        output: "Tool error: tool read_file failed: gone".to_owned(),
    }));
}

#[test]
fn empty_batches_are_refused() {
    let mut around = Surroundings::new(vec![AgentAction::Tools { calls: vec![] }]);
    let mut agent = Agent::new("system", 2);
    assert_eq!(
        drive(&mut agent, "task", &mut around),
        Err(AgentError::Provider("provider returned an empty tool batch".to_owned()))
    );
}

#[test]
fn no_turn_is_left_without_turns() {
    let mut around = Surroundings::new(vec![]);
    let mut agent = Agent::new("system", 0);
    assert_eq!(drive(&mut agent, "task", &mut around), Err(AgentError::MaxTurns(0)));
    assert!(around.events.is_empty());
    assert_eq!(agent.items().len(), 2);
}

#[test]
fn context_limit_is_reported() {
    let mut around = Surroundings::new(vec![AgentAction::Final { message: "done".to_owned() }]);
    let items = vec![
        ConversationItem::Message { role: Role::System, content: "s".to_owned() },
        ConversationItem::Message { role: Role::User, content: "a long first question".to_owned() },
    ];
    let mut agent = Agent::new("system", 1).with_items(items).with_context_limit(5);
    drive(&mut agent, "task", &mut around).unwrap();
    assert_eq!(around.requests, vec![2]);
    assert!(around.events.contains(&AgentEvent::ContextCompacted {
        removed_items: 1,
        retained_items: 2,
        estimated_chars: 5,
    }));
    assert_eq!(agent.items().len(), 4);
}

struct Failing {
    saves: usize,
}

impl ConversationStore for Failing {
    fn save(&mut self, items: &Vec<ConversationItem>) -> Result<(), AgentError> {
        self.saves += 1;
        if items.len() > 2 {
            Err(AgentError::Session("disk full".to_owned()))
        } else {
            Ok(())
        }
    }
}

#[test]
fn a_failing_store_ends_the_run() {
    let mut around = Surroundings::new(vec![AgentAction::Tools { calls: vec![call("a")] }]);
    let mut agent = Agent::new("system", 2).with_store(Failing { saves: 0 });
    assert_eq!(
        drive(&mut agent, "task", &mut around),
        Err(AgentError::Session("disk full".to_owned()))
    );
    assert!(around.executed.is_empty());
}

#[test]
fn the_store_that_keeps_nothing_never_fails() {
    assert_eq!(NoopStore.save(&vec![]), Ok(()));
}

#[test]
fn errors_describe_themselves() {
    let described = |error: AgentError| error.describe();
    assert_eq!(described(AgentError::Provider("x".to_owned())), "provider failed: x");
    assert_eq!(
        described(AgentError::Tool { tool: "t".to_owned(), message: "m".to_owned() }),
        "tool t failed: m"
    );
    assert_eq!(described(AgentError::MaxTurns(20)), "agent exceeded 20 turns");
    assert_eq!(
        described(AgentError::Session("s".to_owned())),
        "session persistence failed: s"
    );
    assert_eq!(described(AgentError::Cancelled), "agent run cancelled");
    assert_eq!(
        described(AgentError::TokenBudget { limit: 10, used: 13 }),
        "agent exceeded token budget of 10 tokens (used 13)"
    );
}

#[test]
fn totals_count_input_and_output() {
    let usage = TokenUsage {
        input_tokens: 8,
        output_tokens: 5,
        cached_input_tokens: 7,
        reasoning_tokens: 3,
    };
    assert_eq!(usage.total(), 13);
    let huge = TokenUsage { input_tokens: u64::MAX, output_tokens: 5, ..TokenUsage::default() };
    assert_eq!(huge.total(), u64::MAX);
}

#[test]
fn the_model_is_asked_once_a_turn() {
    let batch = || AgentAction::Tools { calls: vec![call("a"), call("b")] };
    let mut around = Surroundings::new(vec![batch(), batch(), batch(), batch()]);
    let mut agent = Agent::new("system", 3);
    assert_eq!(drive(&mut agent, "task", &mut around), Err(AgentError::MaxTurns(3)));
    assert_eq!(around.requests, vec![2, 6, 10]);
    assert_eq!(around.executed.len(), 6);
}

struct Counting {
    sizes: Rc<RefCell<Vec<usize>>>,
}

impl ConversationStore for Counting {
    fn save(&mut self, items: &Vec<ConversationItem>) -> Result<(), AgentError> {
        self.sizes.borrow_mut().push(items.len());
        Ok(())
    }
}

#[test]
fn every_step_of_a_conversation_is_saved() {
    let sizes = Rc::new(RefCell::new(vec![]));
    let mut around = Surroundings::new(vec![
        AgentAction::Tools { calls: vec![call("a"), call("b")] },
        AgentAction::Final { message: "done".to_owned() },
    ]);
    let mut agent = Agent::new("system", 2).with_store(Counting { sizes: sizes.clone() });
    drive(&mut agent, "task", &mut around).unwrap();
    assert_eq!(*sizes.borrow(), vec![2, 4, 5, 6, 7]);
}
