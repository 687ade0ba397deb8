//! Model providers: what is sent to them, what their streams mean, and when a call is tried again.
use std::time::Duration;
use vstd::prelude::*;

use crate::error;
use crate::error::{AgentError, ErrorV};
use crate::json;
use crate::json::{parse, Json, JsonV};
use crate::protocol;
use crate::protocol::{
    ActionV, AgentAction, AgentEvent, CallV, ConversationItem, EventV, ItemV, ModelRequest, Role,
    ToolCallRequest,
};
use crate::text;
use crate::text::{cat2, from_chars, join, to_chars, trim_back_of, CharSet};

pub mod anthropic;
pub mod ollama;
pub mod openai;
pub mod retry;
pub mod stream;

verus! {

/// What a step of reading a response comes to.
#[verifier::ext_equal]
pub struct Stepped<M> {
    pub state: M,
    pub events: Seq<EventV>,
    pub result: Result<(), ErrorV>,
}

/// What is known of a response so far, fed one JSON value at a time.
pub trait ResponseState: Sized {
    /// What is known, in the model.
    type Known;

    /// What is known.
    spec fn known(&self) -> Self::Known;

    /// What a JSON value adds.
    spec fn step(known: Self::Known, event: JsonV) -> Stepped<Self::Known>;

    /// Takes a JSON value in and adds the events that it causes.
    fn consume(&mut self, event: &Json, events: &mut Vec<AgentEvent>) -> (result: Result<
        (),
        AgentError,
    >)
        ensures
            ({
                let stepped = Self::step(old(self).known(), event@);
                &&& final(self).known() == stepped.state
                &&& protocol::event_views(final(events)@) == protocol::event_views(old(events)@)
                    + stepped.events
                &&& error::unit_result(result) == stepped.result
            }),
    ;
}

/// What JSON values add one after the other, up to the first that is refused.
pub open spec fn steps<S: ResponseState>(known: S::Known, values: Seq<JsonV>) -> Stepped<S::Known>
    decreases values.len(),
{
    if values.len() == 0 {
        Stepped { state: known, events: seq![], result: Ok(()) }
    } else {
        let front = steps::<S>(known, values.drop_last());
        if front.result is Err {
            front
        } else {
            let last = S::step(front.state, values.last());
            Stepped { state: last.state, events: front.events + last.events, result: last.result }
        }
    }
}

proof fn lemma_steps_stop<S: ResponseState>(known: S::Known, values: Seq<JsonV>, i: int)
    requires
        0 <= i <= values.len(),
        steps::<S>(known, values.take(i)).result is Err,
    ensures
        steps::<S>(known, values) == steps::<S>(known, values.take(i)),
    decreases values.len(),
{
    if i == values.len() {
        assert(values.take(i) == values);
    } else {
        assert(values.drop_last().take(i) == values.take(i));
        lemma_steps_stop::<S>(known, values.drop_last(), i);
    }
}

/// Takes JSON values in one after the other, up to the first that is refused.
pub fn consume_all<S: ResponseState>(
    state: &mut S,
    values: &Vec<Json>,
    events: &mut Vec<AgentEvent>,
) -> (result: Result<(), AgentError>)
    ensures
        ({
            let stepped = steps::<S>(old(state).known(), json::array_view(values@));
            &&& final(state).known() == stepped.state
            &&& protocol::event_views(final(events)@) == protocol::event_views(old(events)@)
                + stepped.events
            &&& error::unit_result(result) == stepped.result
        }),
{
    let ghost all = json::array_view(values@);
    let ghost known = state.known();
    let ghost before = protocol::event_views(events@);
    proof {
        json::lemma_array_view(values@);
    }
    assert(before + Seq::<EventV>::empty() == before);
    for i in 0..values.len()
        invariant
            all == json::array_view(values@),
            all.len() == values.len(),
            forall|j: int| 0 <= j < values.len() ==> #[trigger] all[j] == values@[j]@,
            known == old(state).known(),
            before == protocol::event_views(old(events)@),
            state.known() == steps::<S>(known, all.take(i as int)).state,
            steps::<S>(known, all.take(i as int)).result == Ok::<(), ErrorV>(()),
            protocol::event_views(events@) == before + steps::<S>(
                known,
                all.take(i as int),
            ).events,
    {
        assert(all.take(i + 1).drop_last() == all.take(i as int));
        assert(all.take(i + 1).last() == values@[i as int]@);
        let ghost so_far = steps::<S>(known, all.take(i as int)).events;
        let result = state.consume(&values[i], events);
        proof {
            let added = S::step(
                steps::<S>(known, all.take(i as int)).state,
                values@[i as int]@,
            ).events;
            assert(before + so_far + added == before + (so_far + added));
        }
        if result.is_err() {
            proof {
                lemma_steps_stop::<S>(known, all, i + 1);
            }
            return result;
        }
    }
    assert(all.take(values.len() as int) == all);
    Ok(())
}

/// The action of a list of calls: a single one, or a batch.
pub open spec fn calls_action(calls: Seq<CallV>) -> ActionV {
    if calls.len() == 1 {
        let call = calls[0];
        ActionV::Tool { id: call.id, tool: call.tool, args: call.args, reason: call.reason }
    } else {
        ActionV::Tools { calls }
    }
}

/// The action of a list of calls.
pub fn tool_action(calls: Vec<ToolCallRequest>) -> (action: AgentAction)
    ensures
        action@ == calls_action(protocol::call_views(calls@)),
{
    if calls.len() == 1 {
        let mut calls = calls;
        let ghost first = protocol::call_views(calls@)[0];
        match calls.pop() {
            Some(call) => AgentAction::Tool {
                id: call.id,
                tool: call.tool,
                args: call.args,
                reason: call.reason,
            },
            None => AgentAction::Tools { calls },
        }
    } else {
        AgentAction::Tools { calls }
    }
}

/// What a response comes to: its calls where it has some, else its text, else an error.
pub open spec fn response_action(calls: Seq<CallV>, text: Seq<char>, nothing: Seq<char>) -> Result<
    ActionV,
    ErrorV,
> {
    if calls.len() > 0 {
        Ok(calls_action(calls))
    } else if text.len() == 0 {
        Err(ErrorV::Provider(nothing))
    } else {
        Ok(ActionV::Final { message: text })
    }
}

/// The number under a key, zero where there is none.
pub open spec fn count_at(value: JsonV, field: Seq<char>) -> u64 {
    match value.at(field).unsigned() {
        Some(n) => n,
        None => 0,
    }
}

/// The number under a key, zero where there is none.
pub fn token_count(value: &Json, field: &str) -> (count: u64)
    ensures
        count == count_at(value@, field@),
{
    match value.at(field).as_u64() {
        Some(n) => n,
        None => 0,
    }
}

/// The name of a role.
pub open spec fn role_text(role: Role) -> Seq<char> {
    match role {
        Role::System => "system"@,
        Role::User => "user"@,
        Role::Assistant => "assistant"@,
    }
}

/// The name of a role.
pub fn role_name(role: Role) -> (name: &'static str)
    ensures
        name@ == role_text(role),
{
    match role {
        Role::System => "system",
        Role::User => "user",
        Role::Assistant => "assistant",
    }
}

/// The text under a key, which an event must have.
pub open spec fn demanded_text(value: JsonV, field: Seq<char>) -> Result<Seq<char>, ErrorV> {
    match value.at(field).text() {
        Some(t) => Ok(t),
        None => Err(ErrorV::Provider("provider event omitted "@ + field)),
    }
}

/// The text under a key, which an event must have.
pub fn required_str(value: &Json, field: &str) -> (found: Result<String, AgentError>)
    ensures
        error::text_result(found) == demanded_text(value@, field@),
{
    match value.at(field).as_str() {
        Some(t) => Ok(t.to_owned()),
        None => Err(AgentError::Provider(cat2("provider event omitted ", field))),
    }
}

/// The arguments of a call, given what parsing them gave.
pub open spec fn args_verdict(parsed: Result<JsonV, Seq<char>>) -> Result<JsonV, ErrorV> {
    match parsed {
        Ok(args) => Ok(args),
        Err(error) => Err(ErrorV::Provider("invalid tool arguments: "@ + error)),
    }
}

/// What a JSON value or an agent's error says.
pub open spec fn json_result(result: Result<Json, AgentError>) -> Result<JsonV, ErrorV> {
    match result {
        Ok(value) => Ok(value@),
        Err(error) => Err(error@),
    }
}

/// What a call or an agent's error says.
pub open spec fn call_result(result: Result<ToolCallRequest, AgentError>) -> Result<
    CallV,
    ErrorV,
> {
    match result {
        Ok(call) => Ok(call@),
        Err(error) => Err(error@),
    }
}

/// The arguments of a call, given what parsing them gave.
pub fn checked_args(parsed: Result<Json, String>) -> (args: Result<Json, AgentError>)
    ensures
        json_result(args) == args_verdict(json::parsed(parsed)),
{
    match parsed {
        Ok(args) => Ok(args),
        Err(error) => Err(AgentError::Provider(cat2("invalid tool arguments: ", error.as_str()))),
    }
}

/// Reads the arguments of a call.
pub fn parse_args(input: &str) -> (args: Result<Json, AgentError>)
    ensures
        json_result(args) == args_verdict(json::json_of_text(input@)),
{
    checked_args(parse(input))
}

/// The contents of the system messages of a conversation.
pub open spec fn system_texts(items: Seq<ItemV>) -> Seq<Seq<char>>
    decreases items.len(),
{
    if items.len() == 0 {
        seq![]
    } else {
        let front = system_texts(items.drop_last());
        match items.last() {
            ItemV::Message { role: Role::System, content } => front.push(content),
            _ => front,
        }
    }
}

/// The system messages of a conversation as one text, a blank line between each two.
pub fn system_text(request: &ModelRequest) -> (joined: String)
    ensures
        joined@ == text::join_text(system_texts(request@.items), "\n\n"@),
{
    let items = &request.items;
    let mut parts: Vec<String> = Vec::new();
    for i in 0..items.len()
        invariant
            items@ == request.items@,
            text::views(parts@) == system_texts(request@.items.take(i as int)),
    {
        let ghost before = parts@;
        assert(request@.items.take(i + 1).drop_last() == request@.items.take(i as int));
        assert(request@.items.take(i + 1).last() == items@[i as int]@);
        if let ConversationItem::Message { role: Role::System, content } = &items[i] {
            parts.push(content.clone());
            assert(text::views(parts@) == text::views(before).push(content@));
        }
    }
    assert(request@.items.take(items.len() as int) == request@.items);
    join(&parts, "\n\n")
}

/// The length of a duration in nanoseconds.
pub uninterp spec fn duration_nanos(duration: Duration) -> nat;

/// `Duration::from_secs` is that many seconds long.
pub assume_specification[ Duration::from_secs ](secs: u64) -> (duration: Duration)
    ensures
        duration_nanos(duration) == secs as nat * 1_000_000_000,
;

/// How long a call may take where nothing else is set: five minutes.
pub open spec fn is_default_timeout(timeout: Duration) -> bool {
    duration_nanos(timeout) == 300 * 1_000_000_000
}

/// A base address without slashes at its end.
pub fn trimmed_url(base_url: &str) -> (trimmed: String)
    ensures
        trimmed@ == text::trim_back(CharSet::Slash, base_url@),
{
    from_chars(trim_back_of(CharSet::Slash, to_chars(base_url).as_slice()))
}

/// The text that events show as the model's, one delta behind the other.
pub open spec fn said(events: Seq<EventV>) -> Seq<char>
    decreases events.len(),
{
    if events.len() == 0 {
        seq![]
    } else {
        match events.last() {
            EventV::ModelDelta { delta } => said(events.drop_last()) + delta,
            _ => said(events.drop_last()),
        }
    }
}

/// What is shown by events and then by others is shown by all of them.
pub proof fn lemma_said_adds_up(front: Seq<EventV>, back: Seq<EventV>)
    ensures
        said(front + back) == said(front) + said(back),
    decreases back.len(),
{
    if back.len() == 0 {
        assert(front + back == front);
        assert(said(front) + said(back) == said(front));
    } else {
        lemma_said_adds_up(front, back.drop_last());
        assert((front + back).drop_last() == front + back.drop_last());
        assert((front + back).last() == back.last());
        if let EventV::ModelDelta { delta } = back.last() {
            assert(said(front) + said(back.drop_last()) + delta == said(front) + (said(
                back.drop_last(),
            ) + delta));
        }
    }
}

/// One event shows its delta, or nothing where it is something else.
pub proof fn lemma_said_once(event: EventV)
    ensures
        event matches EventV::ModelDelta { delta } ==> said(seq![event]) == delta,
        !(event is ModelDelta) ==> said(seq![event]) == Seq::<char>::empty(),
        said(Seq::<EventV>::empty()) == Seq::<char>::empty(),
{
    assert(seq![event].drop_last() == Seq::<EventV>::empty());
    assert(seq![event].last() == event);
    reveal_with_fuel(said, 2);
    if let EventV::ModelDelta { delta } = event {
        assert(Seq::<char>::empty() + delta == delta);
    }
}

/// A response that asks for tools comes to exactly these calls, in order: one of them to that call,
/// several to a batch. One that only says something comes to that text, and one without either to an
/// error.
pub proof fn law_responses_come_to_what_they_say(
    calls: Seq<CallV>,
    text: Seq<char>,
    nothing: Seq<char>,
)
    ensures
        calls.len() == 1 ==> response_action(calls, text, nothing) == Ok::<ActionV, ErrorV>(
            ActionV::Tool {
                id: calls[0].id,
                tool: calls[0].tool,
                args: calls[0].args,
                reason: calls[0].reason,
            },
        ),
        calls.len() > 1 ==> response_action(calls, text, nothing) == Ok::<ActionV, ErrorV>(
            ActionV::Tools { calls },
        ),
        calls.len() == 0 && text.len() > 0 ==> response_action(calls, text, nothing) == Ok::<
            ActionV,
            ErrorV,
        >(ActionV::Final { message: text }),
        calls.len() == 0 && text.len() == 0 ==> response_action(calls, text, nothing) == Err::<
            ActionV,
            ErrorV,
        >(ErrorV::Provider(nothing)),
{
}

/// Values are taken in one after the other: what two runs of them add is what the first adds and
/// then, where none of it was refused, what the second adds to that.
pub proof fn law_values_are_taken_in_order<S: ResponseState>(
    known: S::Known,
    front: Seq<JsonV>,
    back: Seq<JsonV>,
)
    ensures
        ({
            let first = steps::<S>(known, front);
            let second = steps::<S>(first.state, back);
            let both = steps::<S>(known, front + back);
            &&& first.result is Err ==> both == first
            &&& first.result is Ok ==> both.state == second.state && both.events == first.events
                + second.events && both.result == second.result
        }),
        steps::<S>(known, Seq::<JsonV>::empty()).state == known,
        steps::<S>(known, Seq::<JsonV>::empty()).events == Seq::<EventV>::empty(),
    decreases back.len(),
{
    let first = steps::<S>(known, front);
    let both = steps::<S>(known, front + back);
    if back.len() == 0 {
        assert(front + back == front);
        assert(first.events + steps::<S>(first.state, back).events == first.events);
        assert(both == first);
        if let Ok(unit) = first.result {
            assert(unit == ());
        }
    } else {
        law_values_are_taken_in_order::<S>(known, front, back.drop_last());
        assert((front + back).drop_last() == front + back.drop_last());
        assert((front + back).last() == back.last());
        if first.result is Ok {
            let second = steps::<S>(first.state, back.drop_last());
            let before = steps::<S>(known, front + back.drop_last());
            assert(before.result == second.result);
            if second.result is Ok {
                let last = S::step(second.state, back.last());
                assert(both.events == before.events + last.events);
                assert(first.events + second.events + last.events == first.events + (second.events
                    + last.events));
            }
        }
    }
}

/// The system messages of a conversation are taken from it in order, each whole, and nothing else
/// is.
pub proof fn law_system_messages_are_collected(
    front: Seq<ItemV>,
    back: Seq<ItemV>,
    item: ItemV,
)
    ensures
        system_texts(front + back) == system_texts(front) + system_texts(back),
        item matches ItemV::Message { role: Role::System, content } ==> system_texts(seq![item])
            == seq![content],
        !(item matches ItemV::Message { role: Role::System, .. }) ==> system_texts(seq![item])
            == Seq::<Seq<char>>::empty(),
    decreases back.len(),
{
    if back.len() == 0 {
        assert(front + back == front);
        assert(system_texts(front) + system_texts(back) == system_texts(front));
    } else {
        law_system_messages_are_collected(front, back.drop_last(), item);
        assert((front + back).drop_last() == front + back.drop_last());
        assert((front + back).last() == back.last());
        assert(system_texts(front + back) == system_texts(front) + system_texts(back));
    }
    assert(seq![item].drop_last() == Seq::<ItemV>::empty());
    assert(seq![item].last() == item);
    reveal_with_fuel(system_texts, 2);
}

/// What an event must have is taken as it is, and where it lacks it the error names what is missing;
/// a count that is missing is zero; arguments that parse are the arguments.
pub proof fn law_fields_are_read_as_they_are(
    value: JsonV,
    field: Seq<char>,
    parsed: Result<JsonV, Seq<char>>,
)
    ensures
        value.at(field) matches JsonV::Text(found) ==> demanded_text(value, field) == Ok::<
            Seq<char>,
            ErrorV,
        >(found),
        !(value.at(field) is Text) ==> demanded_text(value, field) == Err::<Seq<char>, ErrorV>(
            ErrorV::Provider("provider event omitted "@ + field),
        ),
        value.at(field).unsigned() matches Some(n) ==> count_at(value, field) == n,
        value.at(field).unsigned() is None ==> count_at(value, field) == 0,
        parsed matches Ok(args) ==> args_verdict(parsed) == Ok::<JsonV, ErrorV>(args),
        parsed matches Err(error) ==> args_verdict(parsed) == Err::<JsonV, ErrorV>(
            ErrorV::Provider("invalid tool arguments: "@ + error),
        ),
{
}

/// No two roles have the same name, and each has the one that the services know.
pub proof fn law_role_names_differ(a: Role, b: Role)
    ensures
        role_text(a) == role_text(b) <==> a == b,
        role_text(a) == "system"@ <==> a == Role::System,
        role_text(a) == "user"@ <==> a == Role::User,
        role_text(a) == "assistant"@ <==> a == Role::Assistant,
{
    reveal_strlit("system");
    reveal_strlit("user");
    reveal_strlit("assistant");
    assert("system"@.len() == 6 && "user"@.len() == 4 && "assistant"@.len() == 9);
}

} // verus!
