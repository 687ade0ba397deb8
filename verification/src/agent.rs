//! The loop of an agent, as a machine that asks for one outside act at a time.
use vstd::prelude::*;

use crate::context;
use crate::context::bounded_context;
use crate::error;
use crate::error::{AgentError, ErrorV};
use crate::json::{Json, JsonV};
use crate::protocol;
use crate::protocol::{
    clone_optional, emit, ActionV, AgentAction, AgentEvent, CallV, ConversationItem, EventV, ItemV,
    ModelRequest, RequestV, Role, TokenUsage, ToolCallRequest, ToolSpec, ToolSpecV,
};
use crate::text;
use crate::text::{cat2, cat4, decimal, no_text};

verus! {

/// Where a conversation is kept after each of its steps.
pub trait ConversationStore: Sized {
    /// Whether a store that was `pre` may be `post` after it was asked to keep `items` and
    /// answered `result`. A store that says nothing of itself may answer anything.
    open spec fn saves(
        pre: Self,
        items: Seq<ItemV>,
        post: Self,
        result: Result<(), ErrorV>,
    ) -> bool {
        true
    }

    /// Keeps the conversation as it is now.
    fn save(&mut self, items: &Vec<ConversationItem>) -> (result: Result<(), AgentError>)
        ensures
            Self::saves(
                *old(self),
                protocol::item_views(items@),
                *final(self),
                error::unit_result(result),
            ),
    ;
}

/// Keeps nothing.
pub struct NoopStore;

impl ConversationStore for NoopStore {
    open spec fn saves(
        pre: Self,
        items: Seq<ItemV>,
        post: Self,
        result: Result<(), ErrorV>,
    ) -> bool {
        result is Ok
    }

    fn save(&mut self, items: &Vec<ConversationItem>) -> (result: Result<(), AgentError>) {
        Ok(())
    }
}

/// What an agent waits for.
pub enum Phase {
    /// A prompt.
    Idle,
    /// The tools that exist, to ask the model about the conversation in `context`.
    Listing { turn: usize, context: Vec<ConversationItem> },
    /// The model's answer.
    Responding { turn: usize },
    /// The decision whether call `next` of a batch may run.
    Approving { turn: usize, calls: Vec<ToolCallRequest>, next: usize },
    /// The outcome of call `next` of a batch.
    Executing { turn: usize, calls: Vec<ToolCallRequest>, next: usize },
}

/// What an agent waits for, in the model.
#[verifier::ext_equal]
pub enum PhaseV {
    Idle,
    Listing { turn: usize, context: Seq<ItemV> },
    Responding { turn: usize },
    Approving { turn: usize, calls: Seq<CallV>, next: nat },
    Executing { turn: usize, calls: Seq<CallV>, next: nat },
}

impl View for Phase {
    type V = PhaseV;

    open spec fn view(&self) -> PhaseV {
        match *self {
            Phase::Idle => PhaseV::Idle,
            Phase::Listing { turn, context } => PhaseV::Listing {
                turn,
                context: protocol::item_views(context@),
            },
            Phase::Responding { turn } => PhaseV::Responding { turn },
            Phase::Approving { turn, calls, next } => PhaseV::Approving {
                turn,
                calls: protocol::call_views(calls@),
                next: next as nat,
            },
            Phase::Executing { turn, calls, next } => PhaseV::Executing {
                turn,
                calls: protocol::call_views(calls@),
                next: next as nat,
            },
        }
    }
}

/// What an agent asks its surroundings to do next.
#[derive(Debug, PartialEq)]
pub enum AgentStep {
    /// List the tools that exist.
    ListTools,
    /// Ask the model.
    Respond { request: ModelRequest },
    /// Decide whether a tool may run.
    Approve { tool: String, args: Json, reason: Option<String> },
    /// Run a tool.
    Execute { tool: String, args: Json },
    /// Nothing: the run is over.
    Done { result: Result<String, AgentError> },
}

/// What an agent asks for, in the model.
#[verifier::ext_equal]
pub enum StepV {
    ListTools,
    Respond { request: RequestV },
    Approve { tool: Seq<char>, args: JsonV, reason: Option<Seq<char>> },
    Execute { tool: Seq<char>, args: JsonV },
    Done { result: Result<Seq<char>, ErrorV> },
}

impl View for AgentStep {
    type V = StepV;

    open spec fn view(&self) -> StepV {
        match *self {
            AgentStep::ListTools => StepV::ListTools,
            AgentStep::Respond { request } => StepV::Respond { request: request@ },
            AgentStep::Approve { tool, args, reason } => StepV::Approve {
                tool: tool@,
                args: args@,
                reason: protocol::optional_text(reason),
            },
            AgentStep::Execute { tool, args } => StepV::Execute { tool: tool@, args: args@ },
            AgentStep::Done { result } => StepV::Done { result: error::text_result(result) },
        }
    }
}

/// What the surroundings answer.
pub enum AgentReply {
    /// To `ListTools`: the tools.
    Tools { tools: Vec<ToolSpec> },
    /// To `Respond`: the tokens of the last usage event, and what the model decided.
    Response { usage: TokenUsage, action: Result<AgentAction, AgentError> },
    /// To `Approve`: whether the tool may run.
    Approval { approved: bool },
    /// To `Execute`: what the tool gave back.
    Executed { result: Result<String, AgentError> },
}

/// What the surroundings answer, in the model.
#[verifier::ext_equal]
pub enum ReplyV {
    Tools { tools: Seq<ToolSpecV> },
    Response { usage: TokenUsage, action: Result<ActionV, ErrorV> },
    Approval { approved: bool },
    Executed { result: Result<Seq<char>, ErrorV> },
}

impl View for AgentReply {
    type V = ReplyV;

    open spec fn view(&self) -> ReplyV {
        match *self {
            AgentReply::Tools { tools } => ReplyV::Tools { tools: protocol::spec_views(tools@) },
            AgentReply::Response { usage, action } => ReplyV::Response {
                usage,
                action: protocol::action_result(action),
            },
            AgentReply::Approval { approved } => ReplyV::Approval { approved },
            AgentReply::Executed { result } => ReplyV::Executed {
                result: error::text_result(result),
            },
        }
    }
}

/// The events of a step, to be shown in order, and what to do after them.
#[derive(Debug, PartialEq)]
pub struct Progress {
    pub events: Vec<AgentEvent>,
    pub step: AgentStep,
}

/// The state of an agent without its store.
#[verifier::ext_equal]
pub struct AgentV {
    pub items: Seq<ItemV>,
    pub max_turns: usize,
    pub max_total_tokens: Option<u64>,
    pub total_tokens: u64,
    pub max_context_chars: usize,
    pub phase: PhaseV,
}

/// What a prompt or a reply leads to.
#[verifier::ext_equal]
pub struct Outcome {
    /// The events before the conversation is saved.
    pub before: Seq<EventV>,
    /// The conversation that is saved, or that there is nothing to save.
    pub saved: bool,
    /// The events after that.
    pub after: Seq<EventV>,
    /// The agent then.
    pub agent: AgentV,
    /// What it asks for.
    pub step: StepV,
}

/// The end of a run.
pub open spec fn done(agent: AgentV, result: Result<Seq<char>, ErrorV>) -> Outcome {
    Outcome {
        before: seq![],
        saved: false,
        after: seq![],
        agent: AgentV { phase: PhaseV::Idle, ..agent },
        step: StepV::Done { result },
    }
}

/// The events at the start of a turn.
pub open spec fn turn_events(agent: AgentV, turn: usize) -> Seq<EventV> {
    let opening = seq![EventV::Turn { turn }, EventV::ModelStart { turn }];
    let removed = context::removed(agent.items, agent.max_context_chars);
    let window = context::window(agent.items, agent.max_context_chars);
    if removed > 0 {
        opening.push(
            EventV::ContextCompacted {
                removed_items: removed as usize,
                retained_items: window.len() as usize,
                estimated_chars: context::capped(context::total_size(window)),
            },
        )
    } else {
        opening
    }
}

/// What follows when `turns` turns are over: another one, or the end where no more are left.
pub open spec fn next_turn(agent: AgentV, turns: usize) -> Outcome {
    if turns >= agent.max_turns {
        done(agent, Err(ErrorV::MaxTurns(agent.max_turns)))
    } else {
        let turn = (turns + 1) as usize;
        Outcome {
            before: seq![],
            saved: false,
            after: turn_events(agent, turn),
            agent: AgentV {
                phase: PhaseV::Listing {
                    turn,
                    context: context::window(agent.items, agent.max_context_chars),
                },
                ..agent
            },
            step: StepV::ListTools,
        }
    }
}

/// What follows when `next` calls of a batch are answered: the next call, or the next turn.
pub open spec fn next_call(agent: AgentV, turn: usize, calls: Seq<CallV>, next: nat) -> Outcome {
    if next >= calls.len() {
        next_turn(agent, turn)
    } else {
        let call = calls[next as int];
        Outcome {
            before: seq![],
            saved: false,
            after: seq![EventV::ToolStart { tool: call.tool, args: call.args, reason: call.reason }],
            agent: AgentV { phase: PhaseV::Approving { turn, calls, next }, ..agent },
            step: StepV::Approve { tool: call.tool, args: call.args, reason: call.reason },
        }
    }
}

/// An outcome that comes after `events` and a save.
pub open spec fn after_save(events: Seq<EventV>, outcome: Outcome) -> Outcome {
    Outcome { before: events, saved: true, ..outcome }
}

/// What a prompt leads to.
pub open spec fn prompted(agent: AgentV, prompt: Seq<char>) -> Outcome {
    let items = agent.items.push(ItemV::Message { role: Role::User, content: prompt });
    after_save(seq![], next_turn(AgentV { items, ..agent }, 0))
}

/// The identity that call `index` of a turn gets where the model gave it none.
pub open spec fn made_id(turn: usize, index: nat) -> Seq<char> {
    "codehelm-"@ + text::decimal_text(turn as nat) + "-"@ + text::decimal_text(index)
}

/// The calls of a batch, each with an identity.
pub open spec fn named_calls(turn: usize, calls: Seq<CallV>) -> Seq<CallV> {
    calls.map(
        |index: int, call: CallV|
            if call.id.len() == 0 {
                CallV { id: made_id(turn, index as nat), ..call }
            } else {
                call
            },
    )
}

/// The entries of a batch of calls.
pub open spec fn call_items(calls: Seq<CallV>) -> Seq<ItemV> {
    calls.map_values(
        |call: CallV| ItemV::ToolCall { id: call.id, name: call.tool, args: call.args },
    )
}

/// The calls that an action asks for.
pub open spec fn action_calls(action: ActionV) -> Seq<CallV> {
    match action {
        ActionV::Tool { id, tool, args, reason } => seq![CallV { id, tool, args, reason }],
        ActionV::Tools { calls } => calls,
        ActionV::Final { .. } => seq![],
    }
}

/// What a model's answer leads to.
pub open spec fn responded(
    agent: AgentV,
    turn: usize,
    usage: TokenUsage,
    action: Result<ActionV, ErrorV>,
) -> Outcome {
    match action {
        Err(error) => done(agent, Err(error)),
        Ok(action) => {
            let total = protocol::saturated(
                agent.total_tokens,
                protocol::saturated(usage.input_tokens, usage.output_tokens),
            );
            let counted = AgentV { total_tokens: total, ..agent };
            let complete = seq![EventV::ModelComplete { turn }];
            if agent.max_total_tokens is Some && total > agent.max_total_tokens->0 {
                Outcome {
                    before: complete,
                    ..done(
                        counted,
                        Err(
                            ErrorV::TokenBudget { limit: agent.max_total_tokens->0, used: total },
                        ),
                    )
                }
            } else {
                match action {
                    ActionV::Final { message } => Outcome {
                        before: complete,
                        saved: true,
                        after: seq![EventV::Final { message, turn }],
                        agent: AgentV {
                            items: agent.items.push(
                                ItemV::Message { role: Role::Assistant, content: message },
                            ),
                            phase: PhaseV::Idle,
                            ..counted
                        },
                        step: StepV::Done { result: Ok(message) },
                    },
                    _ => {
                        let calls = named_calls(turn, action_calls(action));
                        if calls.len() == 0 {
                            Outcome {
                                before: complete,
                                ..done(
                                    counted,
                                    Err(
                                        ErrorV::Provider("provider returned an empty tool batch"@),
                                    ),
                                )
                            }
                        } else {
                            after_save(
                                complete,
                                next_call(
                                    AgentV { items: agent.items + call_items(calls), ..counted },
                                    turn,
                                    calls,
                                    0,
                                ),
                            )
                        }
                    },
                }
            }
        },
    }
}

/// What it leads to that call `next` of a batch is answered with `output`, shown by `event`.
pub open spec fn answered(
    agent: AgentV,
    turn: usize,
    calls: Seq<CallV>,
    next: nat,
    output: Seq<char>,
    event: EventV,
) -> Outcome {
    let items = agent.items.push(ItemV::ToolResult { id: calls[next as int].id, output });
    after_save(seq![event], next_call(AgentV { items, ..agent }, turn, calls, next + 1))
}

/// What the conversation records of a tool's outcome.
pub open spec fn tool_output(result: Result<Seq<char>, ErrorV>) -> Seq<char> {
    match result {
        Ok(text) => text,
        Err(error) => "Tool error: "@ + error::error_text(error),
    }
}

/// Whether a reply is of the kind that an agent waits for.
pub open spec fn fits(phase: PhaseV, reply: ReplyV) -> bool {
    match phase {
        PhaseV::Idle => false,
        PhaseV::Listing { .. } => reply is Tools,
        PhaseV::Responding { .. } => reply is Response,
        PhaseV::Approving { .. } => reply is Approval,
        PhaseV::Executing { .. } => reply is Executed,
    }
}

/// What a reply leads to.
pub open spec fn replied(agent: AgentV, reply: ReplyV) -> Outcome {
    match (agent.phase, reply) {
        (PhaseV::Listing { turn, context }, ReplyV::Tools { tools }) => Outcome {
            before: seq![],
            saved: false,
            after: seq![],
            agent: AgentV { phase: PhaseV::Responding { turn }, ..agent },
            step: StepV::Respond { request: RequestV { items: context, tools } },
        },
        (PhaseV::Responding { turn }, ReplyV::Response { usage, action }) => responded(
            agent,
            turn,
            usage,
            action,
        ),
        (PhaseV::Approving { turn, calls, next }, ReplyV::Approval { approved }) => {
            let call = calls[next as int];
            if approved {
                Outcome {
                    before: seq![],
                    saved: false,
                    after: seq![],
                    agent: AgentV { phase: PhaseV::Executing { turn, calls, next }, ..agent },
                    step: StepV::Execute { tool: call.tool, args: call.args },
                }
            } else {
                let message = "permission denied"@;
                answered(
                    agent,
                    turn,
                    calls,
                    next,
                    message,
                    EventV::ToolDenied { tool: call.tool, reason: message },
                )
            }
        },
        (PhaseV::Executing { turn, calls, next }, ReplyV::Executed { result }) => {
            let output = tool_output(result);
            answered(
                agent,
                turn,
                calls,
                next,
                output,
                EventV::ToolResult { tool: calls[next as int].tool, result: output },
            )
        },
        _ => done(agent, Err(ErrorV::Cancelled)),
    }
}

/// A conversation that ends with the calls of a batch and the answers to the first `next` of them,
/// in order.
pub open spec fn ends_with_batch(items: Seq<ItemV>, calls: Seq<CallV>, next: nat) -> bool {
    &&& next <= calls.len()
    &&& items.len() >= calls.len() + next
    &&& items.subrange(items.len() - next - calls.len(), items.len() - next) == call_items(calls)
    &&& forall|i: int|
        0 <= i < next ==> (#[trigger] items[items.len() - next + i] matches ItemV::ToolResult {
            id,
            ..
        } && id == calls[i].id)
}

/// An agent is in order: its turn is within the limit, and a batch that it works on stands at the
/// end of its conversation.
pub open spec fn in_order(agent: AgentV) -> bool {
    match agent.phase {
        PhaseV::Idle => true,
        PhaseV::Listing { turn, .. } => 1 <= turn <= agent.max_turns,
        PhaseV::Responding { turn } => 1 <= turn <= agent.max_turns,
        PhaseV::Approving { turn, calls, next } | PhaseV::Executing { turn, calls, next } => {
            &&& 1 <= turn <= agent.max_turns
            &&& next < calls.len()
            &&& ends_with_batch(agent.items, calls, next)
        },
    }
}

/// What an outcome makes of an agent and its store, given how the store answers: where it fails,
/// the run ends with its error.
pub open spec fn advanced<S: ConversationStore>(
    pre_store: S,
    outcome: Outcome,
    post: AgentV,
    post_store: S,
    events: Seq<EventV>,
    step: StepV,
) -> bool {
    if outcome.saved {
        exists|result: Result<(), ErrorV>|
            {
                &&& #[trigger] S::saves(pre_store, outcome.agent.items, post_store, result)
                &&& match result {
                    Ok(()) => {
                        &&& post == outcome.agent
                        &&& events == outcome.before + outcome.after
                        &&& step == outcome.step
                    },
                    Err(error) => {
                        &&& post == (AgentV { phase: PhaseV::Idle, ..outcome.agent })
                        &&& events == outcome.before
                        &&& step == (StepV::Done { result: Err(error) })
                    },
                }
            }
    } else {
        &&& post_store == pre_store
        &&& post == outcome.agent
        &&& events == outcome.before + outcome.after
        &&& step == outcome.step
    }
}

/// An agent: its conversation, its limits and where it stands in a run.
pub struct Agent<S = NoopStore> {
    items: Vec<ConversationItem>,
    max_turns: usize,
    store: S,
    max_total_tokens: Option<u64>,
    total_tokens: u64,
    max_context_chars: usize,
    phase: Phase,
}

impl<S> View for Agent<S> {
    type V = AgentV;

    closed spec fn view(&self) -> AgentV {
        AgentV {
            items: protocol::item_views(self.items@),
            max_turns: self.max_turns,
            max_total_tokens: self.max_total_tokens,
            total_tokens: self.total_tokens,
            max_context_chars: self.max_context_chars,
            phase: self.phase@,
        }
    }
}

impl<S> Agent<S> {
    /// The store of an agent.
    pub closed spec fn kept_in(&self) -> S {
        self.store
    }
}

impl Agent {
    /// An agent with nothing but its system prompt, without a budget.
    pub fn new(system_prompt: &str, max_turns: usize) -> (agent: Self)
        ensures
            agent@ == (AgentV {
                items: seq![ItemV::Message { role: Role::System, content: system_prompt@ }],
                max_turns,
                max_total_tokens: None,
                total_tokens: 0,
                max_context_chars: usize::MAX,
                phase: PhaseV::Idle,
            }),
            in_order(agent@),
    {
        let mut items: Vec<ConversationItem> = Vec::new();
        items.push(
            ConversationItem::Message { role: Role::System, content: system_prompt.to_owned() },
        );
        let agent = Agent {
            items,
            max_turns,
            store: NoopStore,
            max_total_tokens: None,
            total_tokens: 0,
            max_context_chars: usize::MAX,
            phase: Phase::Idle,
        };
        assert(agent@.items == seq![
            ItemV::Message { role: Role::System, content: system_prompt@ },
        ]);
        agent
    }

    /// The agent with another conversation.
    pub fn with_items(self, items: Vec<ConversationItem>) -> (agent: Self)
        ensures
            agent@ == (AgentV {
                items: protocol::item_views(items@),
                phase: PhaseV::Idle,
                ..self@
            }),
            in_order(agent@),
    {
        Agent { items, phase: Phase::Idle, ..self }
    }

    /// The agent with a store for its conversation.
    pub fn with_store<S: ConversationStore>(self, store: S) -> (agent: Agent<S>)
        ensures
            agent@ == self@,
            agent.kept_in() == store,
    {
        Agent {
            items: self.items,
            max_turns: self.max_turns,
            store,
            max_total_tokens: self.max_total_tokens,
            total_tokens: self.total_tokens,
            max_context_chars: self.max_context_chars,
            phase: self.phase,
        }
    }

    /// The agent with a limit on the tokens of all its runs.
    pub fn with_token_budget(self, max_total_tokens: Option<u64>) -> (agent: Self)
        ensures
            agent@ == (AgentV { max_total_tokens, ..self@ }),
    {
        Agent { max_total_tokens, ..self }
    }

    /// The agent with a limit on what a model gets to see of its conversation.
    pub fn with_context_limit(self, max_context_chars: usize) -> (agent: Self)
        ensures
            agent@ == (AgentV { max_context_chars, ..self@ }),
    {
        Agent { max_context_chars, ..self }
    }
}

impl<S: ConversationStore> Agent<S> {
    /// Starts the turn after `turns` turns, or ends the run where no turn is left.
    fn begin_turn(&mut self, turns: usize, events: &mut Vec<AgentEvent>) -> (step: AgentStep)
        requires
            old(self)@.phase is Idle,
        ensures
            final(self)@ == next_turn(old(self)@, turns).agent,
            final(self).kept_in() == old(self).kept_in(),
            protocol::event_views(final(events)@) == protocol::event_views(old(events)@)
                + next_turn(old(self)@, turns).after,
            step@ == next_turn(old(self)@, turns).step,
    {
        if turns >= self.max_turns {
            assert(protocol::event_views(events@) + Seq::<EventV>::empty()
                == protocol::event_views(events@));
            return AgentStep::Done { result: Err(AgentError::MaxTurns(self.max_turns)) };
        }
        let turn: usize = turns + 1;
        emit(events, AgentEvent::Turn { turn });
        emit(events, AgentEvent::ModelStart { turn });
        let window = bounded_context(self.items.as_slice(), self.max_context_chars);
        proof {
            context::law_window_is_systems_and_tail(self@.items, self.max_context_chars);
        }
        if window.removed_items > 0 {
            emit(
                events,
                AgentEvent::ContextCompacted {
                    removed_items: window.removed_items,
                    retained_items: window.items.len(),
                    estimated_chars: window.estimated_chars,
                },
            );
        }
        assert(protocol::event_views(events@) == protocol::event_views(old(events)@)
            + turn_events(old(self)@, turn));
        self.phase = Phase::Listing { turn, context: window.items };
        AgentStep::ListTools
    }

    /// Starts call `next` of a batch, or the next turn where all calls are answered.
    fn begin_call(
        &mut self,
        turn: usize,
        calls: Vec<ToolCallRequest>,
        next: usize,
        events: &mut Vec<AgentEvent>,
    ) -> (step: AgentStep)
        requires
            old(self)@.phase is Idle,
        ensures
            final(self)@ == next_call(
                old(self)@,
                turn,
                protocol::call_views(calls@),
                next as nat,
            ).agent,
            final(self).kept_in() == old(self).kept_in(),
            protocol::event_views(final(events)@) == protocol::event_views(old(events)@)
                + next_call(old(self)@, turn, protocol::call_views(calls@), next as nat).after,
            step@ == next_call(
                old(self)@,
                turn,
                protocol::call_views(calls@),
                next as nat,
            ).step,
    {
        if next >= calls.len() {
            return self.begin_turn(turn, events);
        }
        let tool = calls[next].tool.clone();
        let args = calls[next].args.clone();
        let reason = clone_optional(&calls[next].reason);
        emit(
            events,
            AgentEvent::ToolStart {
                tool: calls[next].tool.clone(),
                args: calls[next].args.clone(),
                reason: clone_optional(&calls[next].reason),
            },
        );
        proof {
            let call = protocol::call_views(calls@)[next as int];
            let started = EventV::ToolStart {
                tool: call.tool,
                args: call.args,
                reason: call.reason,
            };
            assert(protocol::event_views(events@) == protocol::event_views(old(events)@)
                + seq![started]);
        }
        self.phase = Phase::Approving { turn, calls, next };
        AgentStep::Approve { tool, args, reason }
    }

    /// Starts a run with a prompt.
    pub fn run(&mut self, prompt: &str) -> (progress: Progress)
        ensures
            advanced(
                old(self).kept_in(),
                prompted(old(self)@, prompt@),
                final(self)@,
                final(self).kept_in(),
                protocol::event_views(progress.events@),
                progress.step@,
            ),
            in_order(final(self)@),
    {
        self.phase = Phase::Idle;
        let ghost items = self.items@;
        self.items.push(
            ConversationItem::Message { role: Role::User, content: prompt.to_owned() },
        );
        assert(self@.items == protocol::item_views(items).push(
            ItemV::Message { role: Role::User, content: prompt@ },
        ));
        let mut events: Vec<AgentEvent> = Vec::new();
        assert(protocol::event_views(events@) == Seq::<EventV>::empty());
        match self.store.save(&self.items) {
            Err(error) => Progress { events, step: AgentStep::Done { result: Err(error) } },
            Ok(()) => {
                let step = self.begin_turn(0, &mut events);
                Progress { events, step }
            },
        }
    }

    /// Records the answer to call `next` of a batch and goes on.
    fn answer(
        &mut self,
        turn: usize,
        calls: Vec<ToolCallRequest>,
        next: usize,
        output: String,
        event: AgentEvent,
    ) -> (progress: Progress)
        requires
            old(self)@.phase is Idle,
            next < calls.len(),
        ensures
            advanced(
                old(self).kept_in(),
                answered(
                    old(self)@,
                    turn,
                    protocol::call_views(calls@),
                    next as nat,
                    output@,
                    event@,
                ),
                final(self)@,
                final(self).kept_in(),
                protocol::event_views(progress.events@),
                progress.step@,
            ),
    {
        let mut events: Vec<AgentEvent> = Vec::new();
        events.push(event);
        assert(protocol::event_views(events@) == seq![event@]);
        let ghost items = self.items@;
        self.items.push(ConversationItem::ToolResult { id: calls[next].id.clone(), output });
        assert(self@.items == protocol::item_views(items).push(
            ItemV::ToolResult {
                id: protocol::call_views(calls@)[next as int].id,
                output: output@,
            },
        ));
        match self.store.save(&self.items) {
            Err(error) => Progress { events, step: AgentStep::Done { result: Err(error) } },
            Ok(()) => {
                let step = self.begin_call(turn, calls, next + 1, &mut events);
                Progress { events, step }
            },
        }
    }

    /// Takes in what the model decided.
    fn respond(
        &mut self,
        turn: usize,
        usage: TokenUsage,
        action: Result<AgentAction, AgentError>,
    ) -> (progress: Progress)
        requires
            old(self)@.phase is Idle,
        ensures
            advanced(
                old(self).kept_in(),
                responded(old(self)@, turn, usage, protocol::action_result(action)),
                final(self)@,
                final(self).kept_in(),
                protocol::event_views(progress.events@),
                progress.step@,
            ),
    {
        let mut events: Vec<AgentEvent> = Vec::new();
        let action = match action {
            Ok(action) => action,
            Err(error) => {
                assert(protocol::event_views(events@) == Seq::<EventV>::empty());
                return Progress { events, step: AgentStep::Done { result: Err(error) } };
            },
        };
        self.total_tokens = self.total_tokens.saturating_add(usage.total());
        events.push(AgentEvent::ModelComplete { turn });
        let ghost complete = seq![EventV::ModelComplete { turn }];
        assert(protocol::event_views(events@) == complete);
        assert(complete + Seq::<EventV>::empty() == complete);
        if let Some(limit) = self.max_total_tokens {
            if self.total_tokens > limit {
                let error = AgentError::TokenBudget { limit, used: self.total_tokens };
                return Progress { events, step: AgentStep::Done { result: Err(error) } };
            }
        }
        let ghost asked = action_calls(action@);
        let calls: Vec<ToolCallRequest> = match action {
            AgentAction::Final { message } => {
                let ghost items = self.items@;
                self.items.push(
                    ConversationItem::Message { role: Role::Assistant, content: message.clone() },
                );
                assert(self@.items == protocol::item_views(items).push(
                    ItemV::Message { role: Role::Assistant, content: message@ },
                ));
                return match self.store.save(&self.items) {
                    Err(error) => Progress { events, step: AgentStep::Done { result: Err(error) } },
                    Ok(()) => {
                        emit(&mut events, AgentEvent::Final { message: message.clone(), turn });
                        assert(protocol::event_views(events@) == complete + seq![
                            EventV::Final { message: message@, turn },
                        ]);
                        Progress { events, step: AgentStep::Done { result: Ok(message) } }
                    },
                };
            },
            AgentAction::Tool { id, tool, args, reason } => {
                let mut calls: Vec<ToolCallRequest> = Vec::new();
                calls.push(ToolCallRequest { id, tool, args, reason });
                assert(protocol::call_views(calls@) == asked);
                calls
            },
            AgentAction::Tools { calls } => calls,
        };
        if calls.len() == 0 {
            let error = AgentError::Provider("provider returned an empty tool batch".to_owned());
            return Progress { events, step: AgentStep::Done { result: Err(error) } };
        }
        let calls = self.record_calls(turn, calls);
        match self.store.save(&self.items) {
            Err(error) => Progress { events, step: AgentStep::Done { result: Err(error) } },
            Ok(()) => {
                let step = self.begin_call(turn, calls, 0, &mut events);
                Progress { events, step }
            },
        }
    }

    /// Gives each call of a batch an identity and puts the batch at the end of the conversation.
    fn record_calls(&mut self, turn: usize, calls: Vec<ToolCallRequest>) -> (named: Vec<
        ToolCallRequest,
    >)
        ensures
            protocol::call_views(named@) == named_calls(turn, protocol::call_views(calls@)),
            final(self)@ == (AgentV {
                items: old(self)@.items + call_items(
                    named_calls(turn, protocol::call_views(calls@)),
                ),
                ..old(self)@
            }),
            final(self).kept_in() == old(self).kept_in(),
    {
        let ghost asked = protocol::call_views(calls@);
        let ghost wanted = named_calls(turn, asked);
        let ghost before = self@;
        let ghost store = self.kept_in();
        let mut named: Vec<ToolCallRequest> = Vec::new();
        assert(call_items(wanted).take(0) == Seq::<ItemV>::empty());
        for index in 0..calls.len()
            invariant
                asked == protocol::call_views(calls@),
                wanted == named_calls(turn, asked),
                protocol::call_views(named@) == wanted.take(index as int),
                self@ == (AgentV {
                    items: before.items + call_items(wanted).take(index as int),
                    ..before
                }),
                self.kept_in() == store,
        {
            let ghost items = self.items@;
            let ghost done = named@;
            let mut call = calls[index].clone();
            assert(call@ == asked[index as int]);
            if no_text(call.id.as_str()) {
                call.id = cat4(
                    "codehelm-",
                    decimal(turn as u128).as_str(),
                    "-",
                    decimal(index as u128).as_str(),
                );
            }
            assert(call@ == wanted[index as int]);
            self.items.push(
                ConversationItem::ToolCall {
                    id: call.id.clone(),
                    name: call.tool.clone(),
                    args: call.args.clone(),
                },
            );
            named.push(call);
            proof {
                let entry = call_items(wanted)[index as int];
                assert(protocol::item_views(self.items@) == protocol::item_views(items).push(
                    entry,
                ));
                assert(before.items + call_items(wanted).take(index + 1) == (before.items
                    + call_items(wanted).take(index as int)).push(entry));
                assert(protocol::call_views(named@) == protocol::call_views(done).push(call@));
                assert(wanted.take(index + 1) == wanted.take(index as int).push(call@));
            }
        }
        assert(wanted.take(calls.len() as int) == wanted);
        assert(call_items(wanted).take(calls.len() as int) == call_items(wanted));
        named
    }

    /// Goes on with what the surroundings answered.
    pub fn resume(&mut self, reply: AgentReply) -> (progress: Progress)
        requires
            in_order(old(self)@),
            fits(old(self)@.phase, reply@),
        ensures
            advanced(
                old(self).kept_in(),
                replied(old(self)@, reply@),
                final(self)@,
                final(self).kept_in(),
                protocol::event_views(progress.events@),
                progress.step@,
            ),
            in_order(final(self)@),
    {
        proof {
            lemma_replied_in_order(self@, reply@);
        }
        let mut phase = Phase::Idle;
        std::mem::swap(&mut self.phase, &mut phase);
        match (phase, reply) {
            (Phase::Listing { turn, context }, AgentReply::Tools { tools }) => {
                self.phase = Phase::Responding { turn };
                let events: Vec<AgentEvent> = Vec::new();
                assert(protocol::event_views(events@) == Seq::<EventV>::empty());
                Progress {
                    events,
                    step: AgentStep::Respond { request: ModelRequest { items: context, tools } },
                }
            },
            (Phase::Responding { turn }, AgentReply::Response { usage, action }) => self.respond(
                turn,
                usage,
                action,
            ),
            (Phase::Approving { turn, calls, next }, AgentReply::Approval { approved }) => {
                let tool = calls[next].tool.clone();
                if approved {
                    let args = calls[next].args.clone();
                    self.phase = Phase::Executing { turn, calls, next };
                    let events: Vec<AgentEvent> = Vec::new();
                    assert(protocol::event_views(events@) == Seq::<EventV>::empty());
                    Progress { events, step: AgentStep::Execute { tool, args } }
                } else {
                    let output = "permission denied".to_owned();
                    let event = AgentEvent::ToolDenied { tool, reason: output.clone() };
                    self.answer(turn, calls, next, output, event)
                }
            },
            (Phase::Executing { turn, calls, next }, AgentReply::Executed { result }) => {
                let tool = calls[next].tool.clone();
                let output = match result {
                    Ok(output) => output,
                    Err(error) => cat2("Tool error: ", error.describe().as_str()),
                };
                let event = AgentEvent::ToolResult { tool, result: output.clone() };
                self.answer(turn, calls, next, output, event)
            },
            _ => {
                let events: Vec<AgentEvent> = Vec::new();
                Progress { events, step: AgentStep::Done { result: Err(AgentError::Cancelled) } }
            },
        }
    }

    /// The conversation so far.
    pub fn items(&self) -> (items: &Vec<ConversationItem>)
        ensures
            protocol::item_views(items@) == self@.items,
    {
        &self.items
    }
}

/// Remembers the tokens of the last usage event of a model response.
#[derive(Debug, Clone, Copy)]
pub struct UsageTracker {
    pub usage: TokenUsage,
}

impl UsageTracker {
    /// A tracker that saw no event.
    pub fn new() -> (tracker: Self)
        ensures
            tracker.usage == last_usage(seq![]),
    {
        UsageTracker { usage: TokenUsage::default() }
    }

    /// Takes an event into account.
    pub fn observe(&mut self, event: &AgentEvent)
        ensures
            final(self).usage == (match event@ {
                EventV::Usage { usage } => usage,
                _ => old(self).usage,
            }),
            forall|events: Seq<EventV>|
                old(self).usage == last_usage(events) ==> final(self).usage == #[trigger] last_usage(
                    events.push(event@),
                ),
    {
        if let AgentEvent::Usage { usage } = event {
            self.usage = *usage;
        }
        proof {
            assert forall|events: Seq<EventV>| old(self).usage == last_usage(events) implies
                self.usage == #[trigger] last_usage(events.push(event@)) by {
                assert(events.push(event@).drop_last() == events);
            }
        }
    }
}

/// The tokens of the last usage event among `events`, none where there is no such event.
pub open spec fn last_usage(events: Seq<EventV>) -> TokenUsage
    decreases events.len(),
{
    if events.len() == 0 {
        protocol::no_usage()
    } else {
        match events.last() {
            EventV::Usage { usage } => usage,
            _ => last_usage(events.drop_last()),
        }
    }
}

proof fn lemma_batch_grows(
    items: Seq<ItemV>,
    calls: Seq<CallV>,
    next: nat,
    output: Seq<char>,
)
    requires
        next < calls.len(),
        ends_with_batch(items, calls, next),
    ensures
        ends_with_batch(
            items.push(ItemV::ToolResult { id: calls[next as int].id, output }),
            calls,
            next + 1,
        ),
{
    let longer = items.push(ItemV::ToolResult { id: calls[next as int].id, output });
    let n = next + 1;
    assert(longer.subrange(longer.len() - n - calls.len(), longer.len() - n) == items.subrange(
        items.len() - next - calls.len(),
        items.len() - next,
    ));
    assert forall|i: int| 0 <= i < n implies (#[trigger] longer[longer.len() - n
        + i] matches ItemV::ToolResult { id, .. } && id == calls[i].id) by {
        if i < next {
            assert(longer[longer.len() - n + i] == items[items.len() - next + i]);
        }
    }
}

proof fn lemma_replied_in_order(agent: AgentV, reply: ReplyV)
    requires
        in_order(agent),
        fits(agent.phase, reply),
    ensures
        in_order(replied(agent, reply).agent),
{
    match (agent.phase, reply) {
        (PhaseV::Responding { turn }, ReplyV::Response { usage, action }) => {
            if let Ok(action) = action {
                let calls = named_calls(turn, action_calls(action));
                let items = agent.items + call_items(calls);
                assert(items.subrange(items.len() - calls.len(), items.len() as int) == call_items(
                    calls,
                ));
            }
        },
        (PhaseV::Approving { turn, calls, next }, ReplyV::Approval { approved }) => {
            lemma_batch_grows(agent.items, calls, next, "permission denied"@);
        },
        (PhaseV::Executing { turn, calls, next }, ReplyV::Executed { result }) => {
            lemma_batch_grows(agent.items, calls, next, tool_output(result));
        },
        _ => {},
    }
}

/// A conversation is never rewritten: a prompt and every reply only add to its end.
pub proof fn law_history_only_grows(agent: AgentV, prompt: Seq<char>, reply: ReplyV)
    ensures
        agent.items.is_prefix_of(prompted(agent, prompt).agent.items),
        agent.items.is_prefix_of(replied(agent, reply).agent.items),
{
}

/// A conversation is saved after each of its steps: whatever adds to it is saved with it, before
/// anything else is asked for.
pub proof fn law_every_step_is_saved(agent: AgentV, prompt: Seq<char>, reply: ReplyV)
    ensures
        prompted(agent, prompt).saved,
        replied(agent, reply).agent.items != agent.items ==> replied(agent, reply).saved,
{
}

/// Whatever is answered to a call of a batch, the conversation then ends with the whole batch and
/// one result for each call so far, with its identity and in order; with the last call, every call
/// of the batch has its result.
pub proof fn law_calls_and_results_pair_up(agent: AgentV, reply: ReplyV)
    requires
        in_order(agent),
        fits(agent.phase, reply),
    ensures
        match (agent.phase, reply) {
            (PhaseV::Approving { turn, calls, next }, ReplyV::Approval { approved }) => !approved
                ==> ends_with_batch(replied(agent, reply).agent.items, calls, next + 1),
            (PhaseV::Executing { turn, calls, next }, _) => ends_with_batch(
                replied(agent, reply).agent.items,
                calls,
                next + 1,
            ),
            _ => true,
        },
{
    match (agent.phase, reply) {
        (PhaseV::Approving { turn, calls, next }, ReplyV::Approval { approved }) => {
            lemma_batch_grows(agent.items, calls, next, "permission denied"@);
        },
        (PhaseV::Executing { turn, calls, next }, ReplyV::Executed { result }) => {
            lemma_batch_grows(agent.items, calls, next, tool_output(result));
        },
        _ => {},
    }
}

/// A tool runs only right after its call was approved, with the arguments that were approved.
pub proof fn law_tools_run_only_when_approved(agent: AgentV, reply: ReplyV)
    requires
        replied(agent, reply).step is Execute,
    ensures
        reply == (ReplyV::Approval { approved: true }),
        agent.phase matches PhaseV::Approving { calls, next, .. } && replied(agent, reply).step
            == (StepV::Execute { tool: calls[next as int].tool, args: calls[next as int].args }),
{
}

/// An answer that takes the total over the budget ends the run before any of its tools starts:
/// nothing is recorded, nothing is asked for, and the error tells the limit and the total.
pub proof fn law_budget_stops_before_tools(
    agent: AgentV,
    turn: usize,
    usage: TokenUsage,
    action: ActionV,
)
    requires
        agent.max_total_tokens is Some,
        protocol::saturated(
            agent.total_tokens,
            protocol::saturated(usage.input_tokens, usage.output_tokens),
        ) > agent.max_total_tokens->0,
    ensures
        ({
            let outcome = responded(agent, turn, usage, Ok(action));
            &&& outcome.agent.items == agent.items
            &&& !outcome.saved
            &&& outcome.before + outcome.after == seq![EventV::ModelComplete { turn }]
            &&& outcome.step == (StepV::Done {
                result: Err(
                    ErrorV::TokenBudget {
                        limit: agent.max_total_tokens->0,
                        used: protocol::saturated(
                            agent.total_tokens,
                            protocol::saturated(usage.input_tokens, usage.output_tokens),
                        ),
                    },
                ),
            })
        }),
{
}

/// A run that is not over after its last turn ends there: after `max_turns` turns no further one
/// starts, and before that the next one does.
pub proof fn law_turns_are_limited(agent: AgentV, turns: usize)
    ensures
        turns >= agent.max_turns ==> next_turn(agent, turns).step == (StepV::Done {
            result: Err(ErrorV::MaxTurns(agent.max_turns)),
        }),
        turns < agent.max_turns ==> next_turn(agent, turns).step is ListTools,
{
}

/// An agent after a row of replies.
pub open spec fn resumed(agent: AgentV, replies: Seq<ReplyV>) -> AgentV
    decreases replies.len(),
{
    if replies.len() == 0 {
        agent
    } else {
        replied(resumed(agent, replies.drop_last()), replies.last()).agent
    }
}

/// Whether each reply of a row is of the kind that the agent then waits for.
pub open spec fn all_fit(agent: AgentV, replies: Seq<ReplyV>) -> bool
    decreases replies.len(),
{
    replies.len() > 0 ==> {
        &&& all_fit(agent, replies.drop_last())
        &&& fits(resumed(agent, replies.drop_last()).phase, replies.last())
    }
}

/// How often a row of replies leads to asking the model.
pub open spec fn model_calls(agent: AgentV, replies: Seq<ReplyV>) -> nat
    decreases replies.len(),
{
    if replies.len() == 0 {
        0
    } else {
        let asks = replied(resumed(agent, replies.drop_last()), replies.last()).step is Respond;
        model_calls(agent, replies.drop_last()) + if asks {
            1nat
        } else {
            0
        }
    }
}

proof fn lemma_turns_count_model_calls(agent: AgentV, replies: Seq<ReplyV>)
    requires
        in_order(agent),
        agent.phase is Idle || (agent.phase matches PhaseV::Listing { turn, .. } && turn == 1),
        all_fit(agent, replies),
    ensures
        in_order(resumed(agent, replies)),
        resumed(agent, replies).max_turns == agent.max_turns,
        model_calls(agent, replies) <= match resumed(agent, replies).phase {
            PhaseV::Idle => agent.max_turns as int,
            PhaseV::Listing { turn, .. } => turn - 1,
            PhaseV::Responding { turn } => turn as int,
            PhaseV::Approving { turn, .. } => turn as int,
            PhaseV::Executing { turn, .. } => turn as int,
        },
    decreases replies.len(),
{
    if replies.len() > 0 {
        let before = resumed(agent, replies.drop_last());
        lemma_turns_count_model_calls(agent, replies.drop_last());
        lemma_replied_in_order(before, replies.last());
    }
}

/// A run asks the model at most as often as it has turns, whatever the replies are.
pub proof fn law_model_calls_are_limited(agent: AgentV, prompt: Seq<char>, replies: Seq<ReplyV>)
    requires
        all_fit(prompted(agent, prompt).agent, replies),
    ensures
        model_calls(prompted(agent, prompt).agent, replies) <= agent.max_turns,
{
    lemma_turns_count_model_calls(prompted(agent, prompt).agent, replies);
}

/// Every call of a batch has an identity, the one that the model gave it where it gave one.
pub proof fn law_calls_are_identified(turn: usize, calls: Seq<CallV>, i: int)
    requires
        0 <= i < calls.len(),
    ensures
        named_calls(turn, calls)[i].id.len() > 0,
        calls[i].id.len() > 0 ==> named_calls(turn, calls)[i] == calls[i],
{
    reveal_strlit("codehelm-");
}

/// Every call of a batch is put up for approval, whatever became of the calls before it: the answer
/// to a call that is not the last asks for the approval of the next one, and the answer to the last
/// starts the next turn, or ends the run where no turn is left.
pub proof fn law_batches_are_worked_through(
    agent: AgentV,
    turn: usize,
    calls: Seq<CallV>,
    next: nat,
    reply: ReplyV,
)
    requires
        next < calls.len(),
        agent.phase == (PhaseV::Approving { turn, calls, next }) && reply == (ReplyV::Approval {
            approved: false,
        }) || agent.phase == (PhaseV::Executing { turn, calls, next }) && reply is Executed,
    ensures
        ({
            let outcome = replied(agent, reply);
            if next + 1 < calls.len() {
                let call = calls[next as int + 1];
                &&& outcome.step == (StepV::Approve {
                    tool: call.tool,
                    args: call.args,
                    reason: call.reason,
                })
                &&& outcome.agent.phase == (PhaseV::Approving { turn, calls, next: next + 1 })
                &&& outcome.after == seq![
                    EventV::ToolStart { tool: call.tool, args: call.args, reason: call.reason },
                ]
            } else if turn < agent.max_turns {
                &&& outcome.step is ListTools
                &&& outcome.agent.phase matches PhaseV::Listing { turn: later, .. } && later == turn
                    + 1
            } else {
                &&& outcome.step == (StepV::Done { result: Err(ErrorV::MaxTurns(agent.max_turns)) })
                &&& outcome.agent.phase is Idle
            }
        }),
{
}

/// The answer to a call is recorded under the identity of that call, behind all that was there: that
/// it was denied, what the tool gave back, or the error that the tool failed with. The event that
/// shows it names the tool and shows the same text.
pub proof fn law_answers_are_recorded(
    agent: AgentV,
    turn: usize,
    calls: Seq<CallV>,
    next: nat,
    reply: ReplyV,
)
    requires
        next < calls.len(),
    ensures
        ({
            let outcome = replied(agent, reply);
            let call = calls[next as int];
            let with = |output: Seq<char>|
                agent.items.push(ItemV::ToolResult { id: call.id, output });
            &&& agent.phase == (PhaseV::Approving { turn, calls, next }) && reply == (
            ReplyV::Approval { approved: false }) ==> {
                &&& outcome.agent.items == with("permission denied"@)
                &&& outcome.before == seq![
                    EventV::ToolDenied { tool: call.tool, reason: "permission denied"@ },
                ]
                &&& outcome.saved
            }
            &&& agent.phase == (PhaseV::Executing { turn, calls, next }) ==> (
            reply matches ReplyV::Executed { result: Ok(output) } ==> {
                &&& outcome.agent.items == with(output)
                &&& outcome.before == seq![EventV::ToolResult { tool: call.tool, result: output }]
                &&& outcome.saved
            })
            &&& agent.phase == (PhaseV::Executing { turn, calls, next }) ==> (
            reply matches ReplyV::Executed { result: Err(error) } ==> {
                let output = "Tool error: "@ + error::error_text(error);
                &&& outcome.agent.items == with(output)
                &&& outcome.before == seq![EventV::ToolResult { tool: call.tool, result: output }]
                &&& outcome.saved
            })
            &&& agent.phase == (PhaseV::Approving { turn, calls, next }) && reply == (
            ReplyV::Approval { approved: true }) ==> {
                &&& outcome.agent == (AgentV {
                    phase: PhaseV::Executing { turn, calls, next },
                    ..agent
                })
                &&& outcome.step == (StepV::Execute { tool: call.tool, args: call.args })
                &&& outcome.before.len() == 0 && outcome.after.len() == 0
            }
        }),
{
}

/// When a turn starts after a batch, the conversation ends with all calls of the batch and behind
/// them one result for each, in the order of the calls.
pub proof fn law_no_turn_starts_with_open_calls(agent: AgentV, reply: ReplyV)
    requires
        in_order(agent),
        replied(agent, reply).step is ListTools,
    ensures
        ({
            let items = replied(agent, reply).agent.items;
            let calls = match agent.phase {
                PhaseV::Approving { calls, .. } => calls,
                PhaseV::Executing { calls, .. } => calls,
                _ => seq![],
            };
            let start = items.len() - 2 * calls.len();
            &&& calls.len() > 0
            &&& start >= 0
            &&& forall|i: int|
                0 <= i < calls.len() ==> #[trigger] items[start + i] == (ItemV::ToolCall {
                    id: calls[i].id,
                    name: calls[i].tool,
                    args: calls[i].args,
                })
            &&& forall|i: int|
                0 <= i < calls.len() ==> (#[trigger] items[start + calls.len()
                    + i] matches ItemV::ToolResult { id, .. } && id == calls[i].id)
        }),
{
    let items = replied(agent, reply).agent.items;
    let (calls, next) = match agent.phase {
        PhaseV::Approving { calls, next, .. } => (calls, next),
        PhaseV::Executing { calls, next, .. } => (calls, next),
        _ => (seq![], 0),
    };
    law_calls_and_results_pair_up(agent, reply);
    let n = calls.len();
    assert(next + 1 == n);
    assert(ends_with_batch(items, calls, n));
    let start = items.len() - 2 * n;
    assert forall|i: int| 0 <= i < n implies #[trigger] items[start + i] == (ItemV::ToolCall {
        id: calls[i].id,
        name: calls[i].tool,
        args: calls[i].args,
    }) by {
        assert(items.subrange(items.len() - n - n, items.len() - n)[i] == items[start + i]);
    }
    assert forall|i: int| 0 <= i < n implies (#[trigger] items[start + n
        + i] matches ItemV::ToolResult { id, .. } && id == calls[i].id) by {
        assert(items[items.len() - n + i] == items[start + n + i]);
    }
}

/// What a model decides is recorded as it was decided, after its tokens were counted: a message as
/// the assistant's, which ends the run with it; calls one by one with their tools and arguments, the
/// first of which is put up for approval. A failure ends the run and leaves all as it was, and so
/// does an empty batch, but for the tokens.
pub proof fn law_decisions_are_recorded(
    agent: AgentV,
    turn: usize,
    usage: TokenUsage,
    action: Result<ActionV, ErrorV>,
)
    requires
        agent.phase == (PhaseV::Responding { turn }),
    ensures
        ({
            let outcome = replied(agent, ReplyV::Response { usage, action });
            let items = outcome.agent.items;
            let total = agent.total_tokens + usage.input_tokens + usage.output_tokens;
            let old_len = agent.items.len() as int;
            let within = match agent.max_total_tokens {
                Some(limit) => outcome.agent.total_tokens <= limit,
                None => true,
            };
            &&& action matches Err(error) ==> {
                &&& outcome.step == (StepV::Done { result: Err(error) })
                &&& outcome.agent == (AgentV { phase: PhaseV::Idle, ..agent })
                &&& outcome.before + outcome.after == Seq::<EventV>::empty()
            }
            &&& action is Ok ==> outcome.agent.total_tokens == if total <= u64::MAX {
                total
            } else {
                u64::MAX as int
            }
            &&& action matches Ok(ActionV::Final { message }) ==> (within ==> {
                &&& items == agent.items.push(
                    ItemV::Message { role: Role::Assistant, content: message },
                )
                &&& outcome.saved
                &&& outcome.step == (StepV::Done { result: Ok(message) })
                &&& outcome.agent.phase is Idle
                &&& outcome.before + outcome.after == seq![
                    EventV::ModelComplete { turn },
                    EventV::Final { message, turn },
                ]
            })
            &&& action matches Ok(ActionV::Tool { id, tool, args, reason }) ==> (within ==> {
                &&& items.len() == old_len + 1
                &&& items[old_len] matches ItemV::ToolCall { id: given, name, args: recorded }
                    && name == tool && recorded == args && (id.len() > 0 ==> given == id)
                &&& outcome.saved
                &&& outcome.step == (StepV::Approve { tool, args, reason })
            })
            &&& action matches Ok(ActionV::Tools { calls }) ==> (within ==> if calls.len() == 0 {
                &&& items == agent.items
                &&& !outcome.saved
                &&& outcome.step == (StepV::Done {
                    result: Err(ErrorV::Provider("provider returned an empty tool batch"@)),
                })
            } else {
                &&& items.len() == old_len + calls.len()
                &&& items.take(old_len) == agent.items
                &&& forall|i: int|
                    0 <= i < calls.len() ==> (#[trigger] items[old_len
                        + i] matches ItemV::ToolCall { id, name, args } && name == calls[i].tool
                        && args == calls[i].args && (calls[i].id.len() > 0 ==> id == calls[i].id))
                &&& outcome.agent.phase matches PhaseV::Approving { calls: waiting, next, .. }
                    && next == 0 && waiting.len() == calls.len() && forall|i: int|
                    0 <= i < calls.len() ==> (#[trigger] waiting[i]).tool == calls[i].tool
                        && waiting[i].args == calls[i].args && waiting[i].reason == calls[i].reason
                &&& outcome.saved
                &&& outcome.step == (StepV::Approve {
                    tool: calls[0].tool,
                    args: calls[0].args,
                    reason: calls[0].reason,
                })
            })
        }),
{
    let items = replied(agent, ReplyV::Response { usage, action }).agent.items;
    if let Ok(ActionV::Tools { calls }) = action {
        assert(items.take(agent.items.len() as int) == agent.items || calls.len() == 0
            || items == agent.items);
    }
}

/// A run starts with its prompt, as the user's, at the end of the conversation, which is saved; its
/// first turn asks for the tools, unless there is no turn.
pub proof fn law_prompts_start_runs(agent: AgentV, prompt: Seq<char>)
    ensures
        ({
            let outcome = prompted(agent, prompt);
            &&& outcome.agent.items == agent.items.push(
                ItemV::Message { role: Role::User, content: prompt },
            )
            &&& outcome.saved
            &&& outcome.before.len() == 0
            &&& outcome.agent.total_tokens == agent.total_tokens
            &&& outcome.agent.max_turns == agent.max_turns
            &&& agent.max_turns > 0 ==> outcome.step is ListTools && (
            outcome.agent.phase matches PhaseV::Listing { turn, .. } && turn == 1)
            &&& agent.max_turns == 0 ==> outcome.step == (StepV::Done {
                result: Err(ErrorV::MaxTurns(0)),
            })
        }),
{
}

/// The model is asked about what its turn started with, and gets every tool that was listed: no
/// entry of the window and no tool is changed on the way.
pub proof fn law_requests_hold_window_and_tools(
    agent: AgentV,
    turn: usize,
    window: Seq<ItemV>,
    tools: Seq<ToolSpecV>,
)
    requires
        agent.phase == (PhaseV::Listing { turn, context: window }),
    ensures
        ({
            let outcome = replied(agent, ReplyV::Tools { tools });
            &&& outcome.step == (StepV::Respond { request: RequestV { items: window, tools } })
            &&& outcome.agent == (AgentV { phase: PhaseV::Responding { turn }, ..agent })
            &&& !outcome.saved
        }),
{
}

/// A turn is announced with its number, and where the window of its conversation leaves entries out,
/// with how many: what is left out and what is kept together are the whole conversation.
pub proof fn law_turns_are_announced(agent: AgentV, reply: ReplyV)
    requires
        replied(agent, reply).step is ListTools,
        agent.items.len() < usize::MAX,
    ensures
        ({
            let outcome = replied(agent, reply);
            let items = outcome.agent.items;
            &&& outcome.agent.phase matches PhaseV::Listing { turn, context } && {
                &&& context.len() <= items.len()
                &&& outcome.after.len() >= 2
                &&& outcome.after[0] == (EventV::Turn { turn })
                &&& outcome.after[1] == (EventV::ModelStart { turn })
                &&& context.len() == items.len() ==> outcome.after.len() == 2
                &&& context.len() < items.len() ==> outcome.after.len() == 3 && (
                outcome.after[2] matches EventV::ContextCompacted {
                    removed_items,
                    retained_items,
                    ..
                } && retained_items == context.len() && removed_items == items.len()
                    - context.len())
            }
        }),
{
    let items = replied(agent, reply).agent.items;
    context::law_window_is_systems_and_tail(items, agent.max_context_chars);
}

/// A store that fails ends the run with its error, before anything else is asked for or shown; one
/// that keeps the conversation changes nothing.
pub proof fn law_failed_saves_end_runs<S: ConversationStore>(
    pre_store: S,
    outcome: Outcome,
    post: AgentV,
    post_store: S,
    events: Seq<EventV>,
    step: StepV,
    result: Result<(), ErrorV>,
)
    requires
        advanced(pre_store, outcome, post, post_store, events, step),
        outcome.saved,
        forall|answer: Result<(), ErrorV>| #[trigger]
            S::saves(pre_store, outcome.agent.items, post_store, answer) ==> answer == result,
    ensures
        S::saves(pre_store, outcome.agent.items, post_store, result),
        post.items == outcome.agent.items,
        result matches Err(error) ==> {
            &&& step == (StepV::Done { result: Err(error) })
            &&& post.phase is Idle
            &&& events == outcome.before
        },
        result is Ok ==> step == outcome.step && post == outcome.agent && events == outcome.before
            + outcome.after,
{
}

/// The usage of a response is that of its last usage event; without one, nothing was used.
pub proof fn law_the_last_usage_counts(events: Seq<EventV>, i: int)
    ensures
        0 <= i < events.len() && (forall|j: int|
            i < j < events.len() ==> !(#[trigger] events[j] is Usage)) ==> (
        events[i] matches EventV::Usage { usage } ==> last_usage(events) == usage),
        (forall|j: int| 0 <= j < events.len() ==> !(#[trigger] events[j] is Usage)) ==> last_usage(
            events,
        ) == (TokenUsage {
            input_tokens: 0,
            output_tokens: 0,
            cached_input_tokens: 0,
            reasoning_tokens: 0,
        }),
    decreases events.len(),
{
    if events.len() > 0 {
        let front = events.drop_last();
        law_the_last_usage_counts(front, i);
        assert(events[events.len() - 1] == events.last());
        assert forall|j: int| 0 <= j < front.len() implies front[j] == events[j] by {}
        if !(events.last() is Usage) {
            if forall|j: int| 0 <= j < events.len() ==> !(#[trigger] events[j] is Usage) {
                assert forall|j: int| 0 <= j < front.len() implies !(#[trigger] front[j] is Usage) by {
                    assert(!(events[j] is Usage));
                }
            }
            if 0 <= i < front.len() && (forall|j: int|
                i < j < events.len() ==> !(#[trigger] events[j] is Usage)) {
                assert forall|j: int| i < j < front.len() implies !(#[trigger] front[j] is Usage) by {
                    assert(!(events[j] is Usage));
                }
            }
        }
    }
}

/// No two calls of a run get the same identity from the agent: one that is made says the turn and
/// the place in the batch.
pub proof fn law_made_ids_differ(turn: usize, index: nat, other_turn: usize, other: nat)
    requires
        made_id(turn, index) == made_id(other_turn, other),
    ensures
        turn == other_turn,
        index == other,
{
    let front = "codehelm-"@;
    let first = text::decimal_text(turn as nat) + "-"@ + text::decimal_text(index);
    let second = text::decimal_text(other_turn as nat) + "-"@ + text::decimal_text(other);
    assert(made_id(turn, index) == front + first);
    assert(made_id(other_turn, other) == front + second);
    assert(first == (front + first).skip(front.len() as int));
    assert(second == (front + second).skip(front.len() as int));
    text::lemma_decimal_has_no_dash(turn as nat);
    text::lemma_decimal_has_no_dash(other_turn as nat);
    text::law_dashes_tell_parts_apart(
        text::decimal_text(turn as nat),
        text::decimal_text(index),
        text::decimal_text(other_turn as nat),
        text::decimal_text(other),
    );
    text::law_decimals_differ(turn as nat, other_turn as nat);
    text::law_decimals_differ(index, other);
}

/// An approved call is executed as it was asked for, and nothing is recorded or saved before its
/// result is there.
pub proof fn law_approved_calls_are_executed(
    agent: AgentV,
    turn: usize,
    calls: Seq<CallV>,
    next: nat,
)
    requires
        agent.phase == (PhaseV::Approving { turn, calls, next }),
        next < calls.len(),
    ensures
        ({
            let outcome = replied(agent, ReplyV::Approval { approved: true });
            &&& outcome.step == (StepV::Execute {
                tool: calls[next as int].tool,
                args: calls[next as int].args,
            })
            &&& !outcome.saved
            &&& outcome.before + outcome.after == Seq::<EventV>::empty()
            &&& outcome.agent.items == agent.items
            &&& outcome.agent.total_tokens == agent.total_tokens
            &&& outcome.agent.phase == (PhaseV::Executing { turn, calls, next })
        }),
{
}

} // verus!
