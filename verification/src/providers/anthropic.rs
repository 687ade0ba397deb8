//! The Messages API of Anthropic.
use std::collections::BTreeMap;
use std::time::Duration;
use vstd::prelude::*;

use crate::error::{AgentError, ErrorV};
use crate::json;
use crate::json::{add_item, clone_items, put, render, Json, JsonV};
use crate::protocol;
use crate::protocol::{
    emit, AgentAction, AgentEvent, CallV, ConversationItem, EventV, ItemV, ModelRequest, RequestV,
    Role, TokenUsage, ToolCallRequest, ToolSpecV,
};
use crate::providers;
use crate::providers::retry;
use crate::providers::retry::RetryPolicy;
use crate::providers::{
    checked_args, required_str, role_name, system_text, token_count, tool_action, trimmed_url,
    ResponseState, Stepped,
};
use crate::text;
use crate::text::{cat2, decimal, no_text, same_text, CharSet};

verus! {

/// How Anthropic is called.
pub struct AnthropicProvider {
    pub api_key: String,
    pub base_url: String,
    pub model: String,
    pub max_tokens: usize,
    pub retry: RetryPolicy,
    pub request_timeout: Duration,
}

impl AnthropicProvider {
    /// The provider at its usual address.
    pub fn new(api_key: &str, model: &str) -> (provider: Self)
        ensures
            provider.api_key@ == api_key@,
            provider.model@ == model@,
            provider.base_url@ == text::trim_back(CharSet::Slash, "https://api.anthropic.com"@),
            provider.is_fresh(),
    {
        Self::with_base_url(api_key, model, "https://api.anthropic.com")
    }

    /// The provider at an address.
    pub fn with_base_url(api_key: &str, model: &str, base_url: &str) -> (provider: Self)
        ensures
            provider.api_key@ == api_key@,
            provider.model@ == model@,
            provider.base_url@ == text::trim_back(CharSet::Slash, base_url@),
            provider.is_fresh(),
    {
        AnthropicProvider {
            api_key: api_key.to_owned(),
            base_url: trimmed_url(base_url),
            model: model.to_owned(),
            max_tokens: 8_192,
            retry: RetryPolicy::default(),
            request_timeout: Duration::from_secs(300),
        }
    }

    /// Whether what can be set is as it is at first.
    pub open spec fn is_fresh(&self) -> bool {
        &&& self.retry == retry::default_retry()
        &&& providers::is_default_timeout(self.request_timeout)
        &&& self.max_tokens == 8_192
    }

    /// The provider with another way to try again.
    pub fn with_retry_policy(self, retry: RetryPolicy) -> (provider: Self)
        ensures
            provider == (AnthropicProvider { retry, ..self }),
    {
        AnthropicProvider { retry, ..self }
    }

    /// The provider with another limit on how long a call may take.
    pub fn with_request_timeout(self, timeout: Duration) -> (provider: Self)
        ensures
            provider == (AnthropicProvider { request_timeout: timeout, ..self }),
    {
        AnthropicProvider { request_timeout: timeout, ..self }
    }

    /// Where requests go.
    pub fn endpoint(&self) -> (url: String)
        ensures
            url@ == self.base_url@ + "/v1/messages"@,
    {
        cat2(self.base_url.as_str(), "/v1/messages")
    }
}

/// A tool block: a call whose arguments come in pieces.
pub struct AnthropicTool {
    id: String,
    name: String,
    args: String,
}

/// A tool block, in the model.
#[verifier::ext_equal]
pub struct BlockV {
    pub id: Seq<char>,
    pub name: Seq<char>,
    pub args: Seq<char>,
}

impl View for AnthropicTool {
    type V = BlockV;

    closed spec fn view(&self) -> BlockV {
        BlockV { id: self.id@, name: self.name@, args: self.args@ }
    }
}

/// What a response of Anthropic said so far; the tool blocks by their indices.
pub struct AnthropicState {
    text: String,
    tools: BTreeMap<u64, AnthropicTool>,
    input_tokens: u64,
    cached_input_tokens: u64,
}

/// What a response said so far, in the model.
#[verifier::ext_equal]
pub struct AnthropicV {
    pub text: Seq<char>,
    pub tools: Map<u64, BlockV>,
    pub input_tokens: u64,
    pub cached_input_tokens: u64,
}

impl View for AnthropicState {
    type V = AnthropicV;

    closed spec fn view(&self) -> AnthropicV {
        AnthropicV {
            text: self.text@,
            tools: self.tools@.map_values(|tool: AnthropicTool| tool@),
            input_tokens: self.input_tokens,
            cached_input_tokens: self.cached_input_tokens,
        }
    }
}

/// Whether these are the indices of blocks, each of them once, and growing.
pub open spec fn lists_indices(order: Seq<u64>, blocks: Map<u64, BlockV>) -> bool {
    &&& forall|i: int, j: int|
        0 <= i < j < order.len() ==> (#[trigger] order[i]) < (#[trigger] order[j])
    &&& forall|index: u64| #[trigger] blocks.contains_key(index) <==> order.contains(index)
}

/// The indices of blocks, growing.
pub open spec fn indices(blocks: Map<u64, BlockV>) -> Seq<u64> {
    choose|order: Seq<u64>| lists_indices(order, blocks)
}

/// Blocks in the order of their indices.
pub open spec fn in_order(blocks: Map<u64, BlockV>) -> Seq<BlockV> {
    indices(blocks).map_values(|index: u64| blocks[index])
}

/// The index that an event is about, given the one where it gives none.
pub open spec fn block_index(event: JsonV, otherwise: u64) -> u64 {
    match event.at("index"@).unsigned() {
        Some(index) => index,
        None => otherwise,
    }
}

/// The tool block that an event starts.
pub open spec fn started_block(event: JsonV) -> Result<BlockV, ErrorV> {
    match providers::demanded_text(event.at("content_block"@), "id"@) {
        Err(error) => Err(error),
        Ok(id) => match providers::demanded_text(event.at("content_block"@), "name"@) {
            Err(error) => Err(error),
            Ok(name) => Ok(BlockV { id, name, args: seq![] }),
        },
    }
}

/// What an event adds to a response.
pub open spec fn anthropic_step(state: AnthropicV, event: JsonV) -> Stepped<AnthropicV> {
    let kind = event.at("type"@);
    let delta = event.at("delta"@);
    let unchanged = Stepped { state, events: seq![], result: Ok(()) };
    if kind == JsonV::Text("message_start"@) {
        let usage = event.at("message"@).at("usage"@);
        let read = providers::count_at(usage, "cache_read_input_tokens"@);
        let fresh = protocol::saturated(
            providers::count_at(usage, "input_tokens"@),
            providers::count_at(usage, "cache_creation_input_tokens"@),
        );
        Stepped {
            state: AnthropicV {
                input_tokens: protocol::saturated(fresh, read),
                cached_input_tokens: read,
                ..state
            },
            ..unchanged
        }
    } else if kind == JsonV::Text("message_delta"@) {
        Stepped {
            events: seq![
                EventV::Usage {
                    usage: TokenUsage {
                        input_tokens: state.input_tokens,
                        output_tokens: providers::count_at(event.at("usage"@), "output_tokens"@),
                        cached_input_tokens: state.cached_input_tokens,
                        reasoning_tokens: 0,
                    },
                },
            ],
            ..unchanged
        }
    } else if kind == JsonV::Text("content_block_start"@) && event.at("content_block"@).at("type"@)
        == JsonV::Text("tool_use"@) {
        let index = block_index(event, state.tools.len() as u64);
        match started_block(event) {
            Ok(block) => Stepped {
                state: AnthropicV { tools: state.tools.insert(index, block), ..state },
                ..unchanged
            },
            Err(error) => Stepped { result: Err(error), ..unchanged },
        }
    } else if kind == JsonV::Text("content_block_delta"@) {
        if delta.at("type"@) == JsonV::Text("text_delta"@) {
            match delta.at("text"@).text() {
                Some(added) => Stepped {
                    state: AnthropicV { text: state.text + added, ..state },
                    events: seq![EventV::ModelDelta { delta: added }],
                    result: Ok(()),
                },
                None => unchanged,
            }
        } else if delta.at("type"@) == JsonV::Text("input_json_delta"@) {
            match delta.at("partial_json"@).text() {
                Some(added) => {
                    let index = block_index(event, 0);
                    if state.tools.contains_key(index) {
                        let block = state.tools[index];
                        Stepped {
                            state: AnthropicV {
                                tools: state.tools.insert(
                                    index,
                                    BlockV { args: block.args + added, ..block },
                                ),
                                ..state
                            },
                            ..unchanged
                        }
                    } else {
                        Stepped {
                            result: Err(
                                ErrorV::Provider(
                                    "Anthropic sent arguments for unknown tool block "@
                                        + text::decimal_text(index as nat),
                                ),
                            ),
                            ..unchanged
                        }
                    }
                },
                None => unchanged,
            }
        } else {
            unchanged
        }
    } else if kind == JsonV::Text("error"@) {
        Stepped { result: Err(ErrorV::Provider(json::json_text(event))), ..unchanged }
    } else {
        unchanged
    }
}

/// What a call's block says of its call, given what parsing its arguments gave.
pub open spec fn block_call(block: BlockV, parsed: Result<JsonV, Seq<char>>) -> Result<
    CallV,
    ErrorV,
> {
    match providers::args_verdict(parsed) {
        Ok(args) => Ok(CallV { id: block.id, tool: block.name, args, reason: None }),
        Err(error) => Err(error),
    }
}

/// The text of the arguments of a block, an empty object where none came.
pub open spec fn block_args(block: BlockV) -> Seq<char> {
    if block.args.len() == 0 {
        "{}"@
    } else {
        block.args
    }
}

/// The calls of blocks, or the first error among them.
pub open spec fn block_calls(blocks: Seq<BlockV>) -> Result<Seq<CallV>, ErrorV>
    decreases blocks.len(),
{
    if blocks.len() == 0 {
        Ok(seq![])
    } else {
        match block_calls(blocks.drop_last()) {
            Err(error) => Err(error),
            Ok(front) => match block_call(
                blocks.last(),
                json::json_of_text(block_args(blocks.last())),
            ) {
                Err(error) => Err(error),
                Ok(call) => Ok(front.push(call)),
            },
        }
    }
}

proof fn lemma_block_calls_stop(blocks: Seq<BlockV>, i: int)
    requires
        0 <= i <= blocks.len(),
        block_calls(blocks.take(i)) is Err,
    ensures
        block_calls(blocks) == block_calls(blocks.take(i)),
    decreases blocks.len(),
{
    if i == blocks.len() {
        assert(blocks.take(i) == blocks);
    } else {
        assert(blocks.drop_last().take(i) == blocks.take(i));
        lemma_block_calls_stop(blocks.drop_last(), i);
    }
}

impl Default for AnthropicState {
    fn default() -> (state: Self)
        ensures
            state@ == (AnthropicV {
                text: seq![],
                tools: Map::empty(),
                input_tokens: 0,
                cached_input_tokens: 0,
            }),
    {
        let state = AnthropicState {
            text: String::new(),
            tools: BTreeMap::new(),
            input_tokens: 0,
            cached_input_tokens: 0,
        };
        assert(state@.text == Seq::<char>::empty());
        assert(state@.tools == Map::<u64, BlockV>::empty());
        state
    }
}

impl AnthropicState {
    /// Adds a block, in the place of one with its index.
    fn place(&mut self, index: u64, tool: AnthropicTool)
        ensures
            final(self)@ == (AnthropicV {
                tools: old(self)@.tools.insert(index, tool@),
                ..old(self)@
            }),
    {
        let ghost before = self@.tools;
        self.tools.insert(index, tool);
        assert(self@.tools == before.insert(index, tool@));
    }

    /// Adds to the arguments of a block.
    fn extend_args(&mut self, index: u64, added: &str) -> (result: Result<(), AgentError>)
        ensures
            if old(self)@.tools.contains_key(index) {
                let block = old(self)@.tools[index];
                &&& result is Ok
                &&& final(self)@ == (AnthropicV {
                    tools: old(self)@.tools.insert(
                        index,
                        BlockV { args: block.args + added@, ..block },
                    ),
                    ..old(self)@
                })
            } else {
                &&& final(self)@ == old(self)@
                &&& result matches Err(error) && error@ == ErrorV::Provider(
                    "Anthropic sent arguments for unknown tool block "@ + text::decimal_text(
                        index as nat,
                    ),
                )
            },
    {
        let ghost before = self@.tools;
        match self.tools.remove(&index) {
            Some(tool) => {
                let ghost block = tool@;
                let mut tool = tool;
                tool.args.append(added);
                self.tools.insert(index, tool);
                assert(self@.tools == before.insert(
                    index,
                    BlockV { args: block.args + added@, ..block },
                ));
                Ok(())
            },
            None => {
                assert(self@.tools == before);
                Err(
                    AgentError::Provider(
                        cat2(
                            "Anthropic sent arguments for unknown tool block ",
                            decimal(index as u128).as_str(),
                        ),
                    ),
                )
            },
        }
    }
}

impl ResponseState for AnthropicState {
    type Known = AnthropicV;

    open spec fn known(&self) -> AnthropicV {
        self@
    }

    open spec fn step(known: AnthropicV, event: JsonV) -> Stepped<AnthropicV> {
        anthropic_step(known, event)
    }

    fn consume(&mut self, event: &Json, events: &mut Vec<AgentEvent>) -> (result: Result<
        (),
        AgentError,
    >) {
        let kind = event.at("type");
        let delta = event.at("delta");
        let ghost shown = protocol::event_views(events@);
        assert(shown + Seq::<EventV>::empty() == shown);
        assert(self@.tools.dom() == self.tools@.dom());
        if kind.is_text("message_start") {
            let usage = event.at("message").at("usage");
            let read = token_count(usage, "cache_read_input_tokens");
            self.input_tokens = token_count(usage, "input_tokens").saturating_add(
                token_count(usage, "cache_creation_input_tokens"),
            ).saturating_add(read);
            self.cached_input_tokens = read;
        } else if kind.is_text("message_delta") {
            let usage = TokenUsage {
                input_tokens: self.input_tokens,
                output_tokens: token_count(event.at("usage"), "output_tokens"),
                cached_input_tokens: self.cached_input_tokens,
                reasoning_tokens: 0,
            };
            emit(events, AgentEvent::Usage { usage });
            assert(protocol::event_views(events@) == shown + seq![EventV::Usage { usage }]);
        } else if kind.is_text("content_block_start") && event.at("content_block").at(
            "type",
        ).is_text("tool_use") {
            let index: u64 = match event.at("index").as_u64() {
                Some(index) => index,
                None => self.tools.len() as u64,
            };
            let id = match required_str(event.at("content_block"), "id") {
                Ok(id) => id,
                Err(error) => {
                    return Err(error);
                },
            };
            let name = match required_str(event.at("content_block"), "name") {
                Ok(name) => name,
                Err(error) => {
                    return Err(error);
                },
            };
            let args = String::new();
            assert(args@ == Seq::<char>::empty());
            self.place(index, AnthropicTool { id, name, args });
        } else if kind.is_text("content_block_delta") {
            if delta.at("type").is_text("text_delta") {
                if let Some(added) = delta.at("text").as_str() {
                    self.text.append(added);
                    emit(events, AgentEvent::ModelDelta { delta: added.to_owned() });
                    assert(protocol::event_views(events@) == shown + seq![
                        EventV::ModelDelta { delta: added@ },
                    ]);
                }
            } else if delta.at("type").is_text("input_json_delta") {
                if let Some(added) = delta.at("partial_json").as_str() {
                    let index: u64 = match event.at("index").as_u64() {
                        Some(index) => index,
                        None => 0,
                    };
                    return self.extend_args(index, added);
                }
            }
        } else if kind.is_text("error") {
            return Err(AgentError::Provider(render(event)));
        }
        Ok(())
    }
}

/// What a response comes to: its calls, with the arguments that came for each, else its text, else
/// an error.
pub open spec fn anthropic_action(state: AnthropicV) -> Result<protocol::ActionV, ErrorV> {
    match block_calls(in_order(state.tools)) {
        Err(error) => Err(error),
        Ok(calls) => providers::response_action(
            calls,
            state.text,
            "Anthropic returned no text or tool call"@,
        ),
    }
}

/// The call of a block, given what parsing its arguments gave.
fn finished_call(tool: &AnthropicTool, parsed: Result<Json, String>) -> (call: Result<
    ToolCallRequest,
    AgentError,
>)
    ensures
        providers::call_result(call) == block_call(tool@, json::parsed(parsed)),
{
    match checked_args(parsed) {
        Ok(args) => Ok(
            ToolCallRequest { id: tool.id.clone(), tool: tool.name.clone(), args, reason: None },
        ),
        Err(error) => Err(error),
    }
}

/// What a map of blocks is walked in is the order of their indices.
proof fn lemma_listed(
    tools: Map<u64, AnthropicTool>,
    listed: Seq<(u64, AnthropicTool)>,
    blocks: Map<u64, BlockV>,
)
    requires
        blocks == tools.map_values(|tool: AnthropicTool| tool@),
        listed.to_set() == tools.kv_pairs(),
        forall|i: int, j: int| 0 <= i < j < listed.len() ==> listed[i].0 < listed[j].0,
    ensures
        listed.map_values(|entry: (u64, AnthropicTool)| entry.1@) == in_order(blocks),
{
    let order = listed.map_values(|entry: (u64, AnthropicTool)| entry.0);
    assert forall|index: u64| #[trigger] blocks.contains_key(index) <==> order.contains(
        index,
    ) by {
        if blocks.contains_key(index) {
            assert(tools.kv_pairs().contains((index, tools[index])));
            assert(listed.to_set().contains((index, tools[index])));
            let at = choose|at: int| 0 <= at < listed.len() && listed[at] == (index, tools[index]);
            assert(order[at] == index);
        }
        if order.contains(index) {
            let at = choose|at: int| 0 <= at < order.len() && order[at] == index;
            assert(listed.to_set().contains(listed[at]));
            assert(tools.kv_pairs().contains(listed[at]));
        }
    }
    lemma_indices(order, blocks);
    let shown = listed.map_values(|entry: (u64, AnthropicTool)| entry.1@);
    assert forall|i: int| 0 <= i < shown.len() implies shown[i] == in_order(blocks)[i] by {
        assert(listed.to_set().contains(listed[i]));
        assert(tools.kv_pairs().contains(listed[i]));
    }
    assert(shown == in_order(blocks));
}

/// Two lists of the indices of the same blocks are one.
proof fn lemma_one_list(a: Seq<u64>, b: Seq<u64>, blocks: Map<u64, BlockV>, n: int)
    requires
        lists_indices(a, blocks),
        lists_indices(b, blocks),
        0 <= n <= a.len(),
    ensures
        n <= b.len(),
        a.take(n) == b.take(n),
    decreases n,
{
    if n > 0 {
        lemma_one_list(a, b, blocks, n - 1);
        assert(a.take(n - 1) == b.take(n - 1));
        assert forall|i: int| 0 <= i < n - 1 implies a[i] == b[i] by {
            assert(a.take(n - 1)[i] == b.take(n - 1)[i]);
        }
        assert(a.contains(a[n - 1]));
        assert(blocks.contains_key(a[n - 1]));
        let at = choose|at: int| 0 <= at < b.len() && b[at] == a[n - 1];
        if at < n - 1 {
            assert(a[at] == a[n - 1]);
        }
        assert(b.contains(b[n - 1]));
        assert(blocks.contains_key(b[n - 1]));
        let back = choose|back: int| 0 <= back < a.len() && a[back] == b[n - 1];
        if back < n - 1 {
            assert(b[back] == b[n - 1]);
        }
        if at > n - 1 {
            assert(b[n - 1] < b[at]);
            assert(a[back] < a[n - 1]);
        }
        assert(a.take(n) == b.take(n));
    }
}

/// A list of the indices of blocks is the list of them.
proof fn lemma_indices(order: Seq<u64>, blocks: Map<u64, BlockV>)
    requires
        lists_indices(order, blocks),
    ensures
        indices(blocks) == order,
{
    let other = indices(blocks);
    lemma_one_list(order, other, blocks, order.len() as int);
    lemma_one_list(other, order, blocks, other.len() as int);
    assert(order.take(order.len() as int) == order);
    assert(other.take(other.len() as int) == other);
}

impl AnthropicState {
    /// The blocks in the order of their indices.
    fn blocks(&self) -> (blocks: Vec<&AnthropicTool>)
        ensures
            blocks@.map_values(|tool: &AnthropicTool| tool@) == in_order(self@.tools),
    {
        let mut blocks: Vec<&AnthropicTool> = Vec::new();
        let entries = self.tools.iter();
        let ghost listed = vstd::std_specs::btree::into_iter(entries);
        proof {
            assert forall|i: int, j: int| 0 <= i < j < listed.len() implies listed[i].0
                < listed[j].0 by {
                let walked = vstd::std_specs::iter::IteratorSpec::remaining(&entries).map_values(
                    |kv: (&u64, &AnthropicTool)| *kv.0,
                );
                assert(vstd::std_specs::btree::increasing_seq(walked));
                assert(vstd::std_specs::cmp::OrdSpec::cmp_spec(&walked[i], &walked[j]) is Less);
                assert(walked[i] == listed[i].0 && walked[j] == listed[j].0);
            }
            lemma_listed(self.tools@, listed, self@.tools);
        }
        for entry in it: entries
            invariant
                it.seq().unref() == listed,
                blocks.len() == it.index(),
                forall|i: int| 0 <= i < blocks.len() ==> *(#[trigger] blocks@[i]) == listed[i].1,
        {
            blocks.push(entry.1);
        }
        assert(blocks@.map_values(|tool: &AnthropicTool| tool@) == in_order(self@.tools));
        blocks
    }

    /// What the whole response comes to.
    pub fn finish(self) -> (action: Result<AgentAction, AgentError>)
        ensures
            protocol::action_result(action) == anthropic_action(self@),
    {
        let blocks = self.blocks();
        let ghost all = in_order(self@.tools);
        let mut calls: Vec<ToolCallRequest> = Vec::new();
        assert(all.take(0) == Seq::<BlockV>::empty());
        assert(protocol::call_views(calls@) == Seq::<CallV>::empty());
        for i in 0..blocks.len()
            invariant
                all == in_order(self@.tools),
                blocks@.map_values(|tool: &AnthropicTool| tool@) == all,
                block_calls(all.take(i as int)) == Ok::<Seq<CallV>, ErrorV>(
                    protocol::call_views(calls@),
                ),
        {
            let tool = blocks[i];
            proof {
                assert(all.take(i + 1).drop_last() == all.take(i as int));
                assert(all.take(i + 1).last() == all[i as int]);
                assert(all[i as int] == tool@);
            }
            let parsed = if no_text(tool.args.as_str()) {
                json::parse("{}")
            } else {
                json::parse(tool.args.as_str())
            };
            match finished_call(tool, parsed) {
                Ok(call) => {
                    let ghost before = calls@;
                    calls.push(call);
                    assert(protocol::call_views(calls@) == protocol::call_views(before).push(
                        call@,
                    ));
                },
                Err(error) => {
                    proof {
                        lemma_block_calls_stop(all, i + 1);
                    }
                    return Err(error);
                },
            }
        }
        assert(all.take(blocks.len() as int) == all);
        if calls.len() > 0 {
            Ok(tool_action(calls))
        } else if no_text(self.text.as_str()) {
            Err(AgentError::Provider("Anthropic returned no text or tool call".to_owned()))
        } else {
            Ok(AgentAction::Final { message: self.text })
        }
    }
}

/// The tool blocks of a response are finished in the order of their indices, each index once.
pub proof fn law_blocks_come_in_order(blocks: Map<u64, BlockV>)
    requires
        blocks.dom().finite(),
    ensures
        lists_indices(indices(blocks), blocks),
        in_order(blocks).len() == indices(blocks).len(),
        forall|i: int|
            0 <= i < in_order(blocks).len() ==> #[trigger] in_order(blocks)[i]
                == blocks[indices(blocks)[i]],
{
    let order = lemma_listing(blocks);
    lemma_indices(order, blocks);
}

/// Blocks can be listed: the one with the greatest index behind the others.
proof fn lemma_listing(blocks: Map<u64, BlockV>) -> (order: Seq<u64>)
    requires
        blocks.dom().finite(),
    ensures
        lists_indices(order, blocks),
    decreases blocks.dom().len(),
{
    if blocks.dom().len() == 0 {
        assert(blocks.dom() == Set::<u64>::empty());
        assert forall|index: u64| #[trigger] blocks.contains_key(index) implies false by {
            assert(blocks.dom().contains(index));
        }
        seq![]
    } else {
        let greatest = lemma_greatest(blocks.dom());
        let others = blocks.remove(greatest);
        assert(others.dom() == blocks.dom().remove(greatest));
        let front = lemma_listing(others);
        let order = front.push(greatest);
        assert forall|i: int, j: int| 0 <= i < j < order.len() implies (#[trigger] order[i])
            < (#[trigger] order[j]) by {
            assert(front.contains(front[i]));
            assert(others.contains_key(front[i]));
            if j < front.len() {
                assert(front[i] < front[j]);
            }
        }
        assert forall|index: u64| #[trigger] blocks.contains_key(index) <==> order.contains(
            index,
        ) by {
            if blocks.contains_key(index) && index != greatest {
                assert(others.contains_key(index));
                let at = choose|at: int| 0 <= at < front.len() && front[at] == index;
                assert(order[at] == index);
            } else if index == greatest {
                assert(order[order.len() - 1] == greatest);
            } else if order.contains(index) {
                let at = choose|at: int| 0 <= at < order.len() && order[at] == index;
                assert(front[at] == index);
                assert(front.contains(index));
                assert(others.contains_key(index));
            }
        }
        order
    }
}

/// The greatest of some indices.
proof fn lemma_greatest(some: Set<u64>) -> (greatest: u64)
    requires
        some.finite(),
        some.len() > 0,
    ensures
        some.contains(greatest),
        forall|index: u64| #[trigger] some.contains(index) ==> index <= greatest,
    decreases some.len(),
{
    let one = some.choose();
    let others = some.remove(one);
    if others.len() == 0 {
        assert forall|index: u64| #[trigger] some.contains(index) implies index <= one by {
            if index != one {
                assert(others.contains(index));
            }
        }
        one
    } else {
        let other = lemma_greatest(others);
        let greatest = if one > other {
            one
        } else {
            other
        };
        assert forall|index: u64| #[trigger] some.contains(index) implies index <= greatest by {
            if index != one {
                assert(others.contains(index));
            }
        }
        greatest
    }
}

/// Arguments for one tool block leave the other tool blocks as they are.
pub proof fn law_arguments_stay_separate(state: AnthropicV, event: JsonV, index: u64)
    requires
        event.at("type"@) == JsonV::Text("content_block_delta"@),
        block_index(event, 0) != index,
    ensures
        ({
            let tools = anthropic_step(state, event).state.tools;
            &&& tools.contains_key(index) == state.tools.contains_key(index)
            &&& tools[index] == state.tools[index]
        }),
{
    reveal_strlit("content_block_delta");
    reveal_strlit("content_block_start");
    reveal_strlit("message_start");
    reveal_strlit("message_delta");
    assert("content_block_delta"@[14] != "content_block_start"@[14]);
    assert("content_block_delta"@.len() == 19 && "message_start"@.len() == 13
        && "message_delta"@.len() == 13);
}

/// The role under which an entry of a conversation is sent, and the block that it is sent as;
/// system messages go elsewhere.
pub open spec fn content_block(item: ItemV) -> Option<(Seq<char>, JsonV)> {
    match item {
        ItemV::Message { role: Role::System, .. } => None,
        ItemV::Message { role, content } => Some(
            (
                providers::role_text(role),
                JsonV::Object(
                    map!["type"@ => JsonV::Text("text"@), "text"@ => JsonV::Text(content)],
                ),
            ),
        ),
        ItemV::ToolCall { id, name, args } => Some(
            (
                "assistant"@,
                JsonV::Object(
                    map![
                        "type"@ => JsonV::Text("tool_use"@),
                        "id"@ => JsonV::Text(id),
                        "name"@ => JsonV::Text(name),
                        "input"@ => args,
                    ],
                ),
            ),
        ),
        ItemV::ToolResult { id, output } => Some(
            (
                "user"@,
                JsonV::Object(
                    map![
                        "type"@ => JsonV::Text("tool_result"@),
                        "tool_use_id"@ => JsonV::Text(id),
                        "content"@ => JsonV::Text(output),
                    ],
                ),
            ),
        ),
    }
}

/// The blocks of a conversation in messages: blocks that follow each other under one role make one
/// message.
pub open spec fn grouped(items: Seq<ItemV>) -> Seq<(Seq<char>, Seq<JsonV>)>
    decreases items.len(),
{
    if items.len() == 0 {
        seq![]
    } else {
        let front = grouped(items.drop_last());
        match content_block(items.last()) {
            None => front,
            Some((role, block)) => if front.len() > 0 && front.last().0 == role {
                front.drop_last().push((role, front.last().1.push(block)))
            } else {
                front.push((role, seq![block]))
            },
        }
    }
}

/// How a message is sent.
pub open spec fn message_json(message: (Seq<char>, Seq<JsonV>)) -> JsonV {
    JsonV::Object(map!["role"@ => JsonV::Text(message.0), "content"@ => JsonV::Array(message.1)])
}

/// How a tool is described.
pub open spec fn anthropic_tool(tool: ToolSpecV) -> JsonV {
    JsonV::Object(
        map![
            "name"@ => JsonV::Text(tool.name),
            "description"@ => JsonV::Text(tool.description),
            "input_schema"@ => tool.input_schema,
        ],
    )
}

/// What is sent to Anthropic.
pub open spec fn anthropic_body(model: Seq<char>, max_tokens: usize, request: RequestV) -> JsonV {
    JsonV::Object(
        map![
            "model"@ => JsonV::Text(model),
            "system"@ => JsonV::Text(
                text::join_text(providers::system_texts(request.items), "\n\n"@),
            ),
            "messages"@ => JsonV::Array(
                grouped(request.items).map_values(|m: (Seq<char>, Seq<JsonV>)| message_json(m)),
            ),
            "tools"@ => JsonV::Array(
                request.tools.map_values(|tool: ToolSpecV| anthropic_tool(tool)),
            ),
            "max_tokens"@ => json::unsigned_json(max_tokens as u64),
            "stream"@ => JsonV::Bool(true),
        ],
    )
}

/// The role and the block of an entry of a conversation.
fn send_block(item: &ConversationItem) -> (sent: Option<(&'static str, Json)>)
    ensures
        match sent {
            Some(s) => content_block(item@) == Some((s.0@, s.1@)),
            None => content_block(item@) is None,
        },
{
    let mut block: Vec<(String, Json)> = Vec::new();
    let role: &'static str = match item {
        ConversationItem::Message { role: Role::System, .. } => {
            return None;
        },
        ConversationItem::Message { role, content } => {
            put(&mut block, "type", Json::text("text"));
            put(&mut block, "text", Json::Text(content.clone()));
            role_name(*role)
        },
        ConversationItem::ToolCall { id, name, args } => {
            put(&mut block, "type", Json::text("tool_use"));
            put(&mut block, "id", Json::Text(id.clone()));
            put(&mut block, "name", Json::Text(name.clone()));
            put(&mut block, "input", args.clone());
            "assistant"
        },
        ConversationItem::ToolResult { id, output } => {
            put(&mut block, "type", Json::text("tool_result"));
            put(&mut block, "tool_use_id", Json::Text(id.clone()));
            put(&mut block, "content", Json::Text(output.clone()));
            "user"
        },
    };
    Some((role, Json::Object(block)))
}

spec fn message_views(messages: Seq<(&'static str, Vec<Json>)>) -> Seq<(Seq<char>, Seq<JsonV>)> {
    messages.map_values(|m: (&'static str, Vec<Json>)| (m.0@, json::array_view(m.1@)))
}

/// The messages of a conversation.
fn group_blocks(items: &Vec<ConversationItem>) -> (messages: Vec<(&'static str, Vec<Json>)>)
    ensures
        message_views(messages@) == grouped(protocol::item_views(items@)),
{
    let ghost all = protocol::item_views(items@);
    let mut messages: Vec<(&'static str, Vec<Json>)> = Vec::new();
    assert(all.take(0) == Seq::<ItemV>::empty());
    for i in 0..items.len()
        invariant
            all == protocol::item_views(items@),
            message_views(messages@) == grouped(all.take(i as int)),
    {
        let ghost before = messages@;
        proof {
            assert(all.take(i + 1).drop_last() == all.take(i as int));
            assert(all.take(i + 1).last() == items@[i as int]@);
        }
        if let Some((role, block)) = send_block(&items[i]) {
            let n = messages.len();
            if n > 0 && same_text(messages[n - 1].0, role) {
                assert(message_views(before).last().0 == role@);
                let (role_before, content) = messages.remove(n - 1);
                let mut content = content;
                add_item(&mut content, block);
                messages.push((role_before, content));
                assert(message_views(messages@) == message_views(before).drop_last().push(
                    (role@, message_views(before).last().1.push(block@)),
                ));
            } else {
                assert(n > 0 ==> message_views(before).last().0 == before[n - 1].0@);
                let mut content: Vec<Json> = Vec::new();
                add_item(&mut content, block);
                assert(json::array_view(content@) == seq![block@]);
                messages.push((role, content));
                assert(message_views(messages@) == message_views(before).push(
                    (role@, seq![block@]),
                ));
            }
        }
    }
    assert(all.take(items.len() as int) == all);
    messages
}

/// Builds what is sent to Anthropic.
pub fn anthropic_request(model: &str, max_tokens: usize, request: &ModelRequest) -> (body: Json)
    ensures
        body@ == anthropic_body(model@, max_tokens, request@),
{
    let system = system_text(request);
    let groups = group_blocks(&request.items);
    let ghost sent = grouped(request@.items).map_values(
        |m: (Seq<char>, Seq<JsonV>)| message_json(m),
    );
    let mut messages: Vec<Json> = Vec::new();
    for i in 0..groups.len()
        invariant
            message_views(groups@) == grouped(request@.items),
            sent == grouped(request@.items).map_values(
                |m: (Seq<char>, Seq<JsonV>)| message_json(m),
            ),
            json::array_view(messages@) == sent.take(i as int),
    {
        let (role, content) = &groups[i];
        let mut entry: Vec<(String, Json)> = Vec::new();
        put(&mut entry, "role", Json::text(role));
        put(&mut entry, "content", Json::Array(clone_items(content)));
        let message = Json::Object(entry);
        assert(grouped(request@.items)[i as int] == (role@, json::array_view(content@)));
        assert(message@ == sent[i as int]);
        add_item(&mut messages, message);
        assert(sent.take(i + 1) == sent.take(i as int).push(sent[i as int]));
    }
    assert(sent.take(groups.len() as int) == sent);
    let ghost wanted = request@.tools.map_values(|tool: ToolSpecV| anthropic_tool(tool));
    let mut tools: Vec<Json> = Vec::new();
    for i in 0..request.tools.len()
        invariant
            wanted == request@.tools.map_values(|tool: ToolSpecV| anthropic_tool(tool)),
            json::array_view(tools@) == wanted.take(i as int),
    {
        let tool = &request.tools[i];
        let mut entry: Vec<(String, Json)> = Vec::new();
        put(&mut entry, "name", Json::Text(tool.name.clone()));
        put(&mut entry, "description", Json::Text(tool.description.clone()));
        put(&mut entry, "input_schema", tool.input_schema.clone());
        let described = Json::Object(entry);
        assert(described@ == wanted[i as int]);
        add_item(&mut tools, described);
        assert(wanted.take(i + 1) == wanted.take(i as int).push(wanted[i as int]));
    }
    assert(wanted.take(request.tools.len() as int) == wanted);
    let mut body: Vec<(String, Json)> = Vec::new();
    put(&mut body, "model", Json::text(model));
    put(&mut body, "system", Json::Text(system));
    put(&mut body, "messages", Json::Array(messages));
    put(&mut body, "tools", Json::Array(tools));
    put(&mut body, "max_tokens", Json::unsigned(max_tokens as u64));
    put(&mut body, "stream", Json::Bool(true));
    Json::Object(body)
}

proof fn lemma_every_block_is_sent(items: Seq<ItemV>, i: int) -> (at: (int, int))
    requires
        0 <= i < items.len(),
        content_block(items[i]) is Some,
    ensures
        0 <= at.0 < grouped(items).len(),
        0 <= at.1 < grouped(items)[at.0].1.len(),
        grouped(items)[at.0].0 == (content_block(items[i])->0).0,
        grouped(items)[at.0].1[at.1] == (content_block(items[i])->0).1,
    decreases items.len(),
{
    let front = grouped(items.drop_last());
    let whole = grouped(items);
    if i == items.len() - 1 {
        (whole.len() - 1, whole.last().1.len() - 1)
    } else {
        let at = lemma_every_block_is_sent(items.drop_last(), i);
        if at.0 < front.len() - 1 {
            assert(whole[at.0] == front[at.0]);
        }
        at
    }
}

/// The identity of every tool call and of every tool result is sent with it, the call by the
/// assistant and the result by the user.
pub proof fn law_tool_identity_is_sent(items: Seq<ItemV>, i: int)
    requires
        0 <= i < items.len(),
    ensures
        items[i] matches ItemV::ToolCall { id, .. } ==> exists|m: int, b: int|
            {
                &&& 0 <= m < grouped(items).len()
                &&& 0 <= b < grouped(items)[m].1.len()
                &&& grouped(items)[m].0 == "assistant"@
                &&& (#[trigger] grouped(items)[m].1[b]).at("id"@) == JsonV::Text(id)
            },
        items[i] matches ItemV::ToolResult { id, .. } ==> exists|m: int, b: int|
            {
                &&& 0 <= m < grouped(items).len()
                &&& 0 <= b < grouped(items)[m].1.len()
                &&& grouped(items)[m].0 == "user"@
                &&& (#[trigger] grouped(items)[m].1[b]).at("tool_use_id"@) == JsonV::Text(id)
            },
{
    reveal_strlit("id");
    reveal_strlit("name");
    reveal_strlit("input");
    reveal_strlit("tool_use_id");
    reveal_strlit("content");
    assert("id"@.len() == 2 && "name"@.len() == 4 && "input"@.len() == 5 && "tool_use_id"@.len()
        == 11 && "content"@.len() == 7);
    if !(items[i] is Message) {
        let at = lemma_every_block_is_sent(items, i);
        let sent = grouped(items)[at.0].1[at.1];
        assert(sent == (content_block(items[i])->0).1);
    }
}

/// The text of a response is what was shown of it: all deltas, one behind the other, and nothing
/// else. A response that calls no tool comes to that text.
pub proof fn law_deltas_make_the_message(values: Seq<JsonV>)
    ensures
        ({
            let fresh = AnthropicV {
                text: seq![],
                tools: Map::empty(),
                input_tokens: 0,
                cached_input_tokens: 0,
            };
            let run = providers::steps::<AnthropicState>(fresh, values);
            let shown = providers::said(run.events);
            &&& run.state.text == shown
            &&& run.state.tools.dom().finite()
            &&& run.state.tools == Map::<u64, BlockV>::empty() && shown.len() > 0
                ==> anthropic_action(run.state) == Ok::<protocol::ActionV, ErrorV>(
                protocol::ActionV::Final { message: shown },
            )
        }),
    decreases values.len(),
{
    let fresh = AnthropicV {
        text: seq![],
        tools: Map::empty(),
        input_tokens: 0,
        cached_input_tokens: 0,
    };
    let run = providers::steps::<AnthropicState>(fresh, values);
    if values.len() > 0 {
        law_deltas_make_the_message(values.drop_last());
        let front = providers::steps::<AnthropicState>(fresh, values.drop_last());
        if front.result is Ok {
            let last = anthropic_step(front.state, values.last());
            assert(run.events == front.events + last.events);
            providers::lemma_said_adds_up(front.events, last.events);
            if last.events.len() == 1 {
                providers::lemma_said_once(last.events[0]);
                assert(last.events == seq![last.events[0]]);
            } else {
                assert(last.events == Seq::<EventV>::empty());
            }
            assert(run.state.text == providers::said(run.events));
        }
    }
    let none = Map::<u64, BlockV>::empty();
    let order = Seq::<u64>::empty();
    assert(lists_indices(order, none));
    lemma_indices(order, none);
    assert(in_order(none) == Seq::<BlockV>::empty());
}

/// What an event adds: a text delta to the text, the start of a tool block that block, arguments to
/// the block that they are for, the start of a message the tokens that went in and its end all of
/// them; every other event nothing.
pub proof fn law_events_are_taken_in(state: AnthropicV, event: JsonV)
    ensures
        ({
            let stepped = anthropic_step(state, event);
            let kind = event.at("type"@);
            let delta = event.at("delta"@);
            let block = event.at("content_block"@);
            let index = event.at("index"@).unsigned();
            &&& kind == JsonV::Text("content_block_delta"@) && delta.at("type"@) == JsonV::Text(
                "text_delta"@,
            ) ==> (delta.at("text"@) matches JsonV::Text(added) ==> stepped == (Stepped {
                state: AnthropicV { text: state.text + added, ..state },
                events: seq![EventV::ModelDelta { delta: added }],
                result: Ok(()),
            }))
            &&& kind == JsonV::Text("content_block_delta"@) && delta.at("type"@) == JsonV::Text(
                "input_json_delta"@,
            ) ==> (index matches Some(at) ==> (delta.at("partial_json"@) matches JsonV::Text(added)
                ==> {
                &&& stepped.events.len() == 0
                &&& state.tools.contains_key(at) ==> {
                    &&& stepped.result is Ok
                    &&& stepped.state.tools.contains_key(at)
                    &&& stepped.state.tools[at].args == state.tools[at].args + added
                    &&& stepped.state.tools[at].id == state.tools[at].id
                    &&& stepped.state.tools[at].name == state.tools[at].name
                    &&& stepped.state.text == state.text
                    &&& stepped.state.tools.dom() == state.tools.dom()
                }
                &&& !state.tools.contains_key(at) ==> stepped.result is Err && stepped.state
                    == state
            }))
            &&& kind == JsonV::Text("content_block_start"@) && block.at("type"@) == JsonV::Text(
                "tool_use"@,
            ) && block.at("id"@) is Text && block.at("name"@) is Text ==> {
                let at = match index {
                    Some(given) => given,
                    None => state.tools.len() as u64,
                };
                &&& stepped.result is Ok
                &&& stepped.events.len() == 0
                &&& stepped.state.text == state.text
                &&& stepped.state.tools == state.tools.insert(
                    at,
                    BlockV {
                        id: block.at("id"@)->Text_0,
                        name: block.at("name"@)->Text_0,
                        args: seq![],
                    },
                )
            }
            &&& kind == JsonV::Text("error"@) ==> stepped.result == Err::<(), ErrorV>(
                ErrorV::Provider(json::json_text(event)),
            ) && stepped.state == state
            &&& kind != JsonV::Text("message_start"@) && kind != JsonV::Text("message_delta"@)
                && kind != JsonV::Text("content_block_start"@) && kind != JsonV::Text(
                "content_block_delta"@,
            ) && kind != JsonV::Text("error"@) ==> stepped.state == state && stepped.events.len()
                == 0 && stepped.result is Ok
        }),
{
    reveal_strlit("message_start");
    reveal_strlit("message_delta");
    reveal_strlit("content_block_start");
    reveal_strlit("content_block_delta");
    reveal_strlit("error");
    reveal_strlit("text_delta");
    reveal_strlit("input_json_delta");
    assert("message_start"@.len() == 13 && "message_delta"@.len() == 13
        && "content_block_start"@.len() == 19 && "content_block_delta"@.len() == 19
        && "error"@.len() == 5 && "text_delta"@.len() == 10 && "input_json_delta"@.len() == 16);
    assert("message_start"@[8] == 's' && "message_delta"@[8] == 'd');
    assert("content_block_start"@[14] == 's' && "content_block_delta"@[14] == 'd');
    let stepped = anthropic_step(state, event);
    if event.at("type"@) == JsonV::Text("content_block_delta"@) {
        if let Some(at) = event.at("index"@).unsigned() {
            if state.tools.contains_key(at) {
                assert(stepped.state.tools.dom() == state.tools.dom());
            }
        }
    }
}

/// The tokens of a response are told once it ends: those that went in are the fresh ones, the ones
/// that were put into the cache and the ones that were read from it; the last are told as cached.
pub proof fn law_tokens_are_told(state: AnthropicV, start: JsonV, end: JsonV)
    requires
        start.at("type"@) == JsonV::Text("message_start"@),
        end.at("type"@) == JsonV::Text("message_delta"@),
    ensures
        ({
            let usage = start.at("message"@).at("usage"@);
            let count = |value: JsonV, key: Seq<char>|
                match value.at(key).unsigned() {
                    Some(n) => n as int,
                    None => 0,
                };
            let input = count(usage, "input_tokens"@) + count(
                usage,
                "cache_creation_input_tokens"@,
            ) + count(usage, "cache_read_input_tokens"@);
            let started = anthropic_step(state, start);
            let ended = anthropic_step(started.state, end);
            &&& started.events.len() == 0 && started.result is Ok && ended.result is Ok
            &&& started.state.text == state.text && started.state.tools == state.tools
            &&& ended.state == started.state
            &&& ended.events.len() == 1
            &&& ended.events[0] matches EventV::Usage { usage: told } && {
                &&& told.input_tokens == if input <= u64::MAX {
                    input
                } else {
                    u64::MAX as int
                }
                &&& told.cached_input_tokens == count(usage, "cache_read_input_tokens"@)
                &&& told.output_tokens == count(end.at("usage"@), "output_tokens"@)
                &&& told.reasoning_tokens == 0
            }
        }),
{
    reveal_strlit("message_start");
    reveal_strlit("message_delta");
    assert("message_start"@[8] == 's' && "message_delta"@[8] == 'd');
}

/// Each tool block comes to a call with its identity and its tool, and with the arguments that its
/// pieces make up, an empty object where none came; arguments that are no JSON are an error.
pub proof fn law_blocks_come_to_calls(blocks: Seq<BlockV>, i: int)
    requires
        0 <= i < blocks.len(),
    ensures
        ({
            let given = if blocks[i].args.len() == 0 {
                "{}"@
            } else {
                blocks[i].args
            };
            &&& block_calls(blocks) matches Ok(calls) ==> {
                &&& calls.len() == blocks.len()
                &&& calls[i].id == blocks[i].id
                &&& calls[i].tool == blocks[i].name
                &&& json::json_of_text(given) == Ok::<JsonV, Seq<char>>(calls[i].args)
                &&& calls[i].reason is None
            }
            &&& json::json_of_text(given) is Err ==> block_calls(blocks) is Err
        }),
    decreases blocks.len(),
{
    let front = blocks.drop_last();
    lemma_block_calls_len(front);
    if i < front.len() {
        law_blocks_come_to_calls(front, i);
        assert(front[i] == blocks[i]);
    }
}

proof fn lemma_block_calls_len(blocks: Seq<BlockV>)
    ensures
        block_calls(blocks) matches Ok(calls) ==> calls.len() == blocks.len(),
    decreases blocks.len(),
{
    if blocks.len() > 0 {
        lemma_block_calls_len(blocks.drop_last());
    }
}

/// The blocks of grouped messages, one behind the other, each with the role that it is sent under.
pub open spec fn ungrouped(groups: Seq<(Seq<char>, Seq<JsonV>)>) -> Seq<(Seq<char>, JsonV)>
    decreases groups.len(),
{
    if groups.len() == 0 {
        seq![]
    } else {
        ungrouped(groups.drop_last()) + groups.last().1.map_values(
            |block: JsonV| (groups.last().0, block),
        )
    }
}

/// A conversation is sent entry by entry, in order: the blocks of the messages, one behind the other,
/// are those of the entries, and entries that follow each other under one role make up one message.
pub proof fn law_conversations_are_sent_in_order(items: Seq<ItemV>, item: ItemV)
    ensures
        grouped(Seq::<ItemV>::empty()) == Seq::<(Seq<char>, Seq<JsonV>)>::empty(),
        item matches ItemV::Message { role, content } ==> if role == Role::System {
            ungrouped(grouped(items.push(item))) == ungrouped(grouped(items))
        } else {
            ungrouped(grouped(items.push(item))) == ungrouped(grouped(items)).push(
                (
                    if role == Role::User {
                        "user"@
                    } else {
                        "assistant"@
                    },
                    JsonV::Object(
                        map!["type"@ => JsonV::Text("text"@), "text"@ => JsonV::Text(content)],
                    ),
                ),
            )
        },
        item matches ItemV::ToolCall { id, name, args } ==> ungrouped(grouped(items.push(item)))
            == ungrouped(grouped(items)).push(
            (
                "assistant"@,
                JsonV::Object(
                    map![
                        "type"@ => JsonV::Text("tool_use"@),
                        "id"@ => JsonV::Text(id),
                        "name"@ => JsonV::Text(name),
                        "input"@ => args,
                    ],
                ),
            ),
        ),
        item matches ItemV::ToolResult { id, output } ==> ungrouped(grouped(items.push(item)))
            == ungrouped(grouped(items)).push(
            (
                "user"@,
                JsonV::Object(
                    map![
                        "type"@ => JsonV::Text("tool_result"@),
                        "tool_use_id"@ => JsonV::Text(id),
                        "content"@ => JsonV::Text(output),
                    ],
                ),
            ),
        ),
{
    let longer = items.push(item);
    assert(longer.drop_last() == items);
    assert(longer.last() == item);
    let front = grouped(items);
    if let Some((role, block)) = content_block(item) {
        let whole = grouped(longer);
        let one = seq![block].map_values(|b: JsonV| (role, b));
        assert(one == seq![(role, block)]);
        if front.len() > 0 && front.last().0 == role {
            assert(whole.drop_last() == front.drop_last());
            assert(whole.last().1.map_values(|b: JsonV| (role, b)) == front.last().1.map_values(
                |b: JsonV| (role, b),
            ).push((role, block)));
            assert(ungrouped(whole) == ungrouped(front).push((role, block)));
        } else {
            assert(whole.drop_last() == front);
            assert(ungrouped(whole) == ungrouped(front) + one);
            assert(ungrouped(whole) == ungrouped(front).push((role, block)));
        }
    }
}

/// No message is empty, and no two that follow each other have the same role.
pub proof fn law_roles_alternate(items: Seq<ItemV>, i: int)
    ensures
        0 <= i < grouped(items).len() ==> grouped(items)[i].1.len() > 0,
        0 <= i < grouped(items).len() - 1 ==> grouped(items)[i].0 != grouped(items)[i + 1].0,
    decreases items.len(),
{
    if items.len() > 0 {
        law_roles_alternate(items.drop_last(), i);
        law_roles_alternate(items.drop_last(), i - 1);
        law_roles_alternate(items.drop_last(), grouped(items.drop_last()).len() - 2);
    }
}

/// A request names its model and how much may come back, holds the system messages apart, the
/// messages with their roles, and every tool with its name, its description and its schema, in order;
/// it asks for a stream.
pub proof fn law_requests_hold_everything(model: Seq<char>, max_tokens: usize, request: RequestV)
    ensures
        ({
            let body = anthropic_body(model, max_tokens, request);
            &&& body.at("model"@) == JsonV::Text(model)
            &&& body.at("max_tokens"@) == json::unsigned_json(max_tokens as u64)
            &&& body.at("system"@) == JsonV::Text(
                text::join_text(providers::system_texts(request.items), "\n\n"@),
            )
            &&& body.at("stream"@) == JsonV::Bool(true)
            &&& body.at("messages"@) matches JsonV::Array(messages) && messages.len() == grouped(
                request.items,
            ).len() && forall|i: int|
                0 <= i < messages.len() ==> {
                    &&& (#[trigger] messages[i]).at("role"@) == JsonV::Text(
                        grouped(request.items)[i].0,
                    )
                    &&& messages[i].at("content"@) == JsonV::Array(grouped(request.items)[i].1)
                }
            &&& body.at("tools"@) matches JsonV::Array(tools) && tools.len()
                == request.tools.len() && forall|i: int|
                0 <= i < tools.len() ==> {
                    &&& (#[trigger] tools[i]).at("name"@) == JsonV::Text(request.tools[i].name)
                    &&& tools[i].at("description"@) == JsonV::Text(request.tools[i].description)
                    &&& tools[i].at("input_schema"@) == request.tools[i].input_schema
                }
        }),
{
    reveal_strlit("model");
    reveal_strlit("system");
    reveal_strlit("messages");
    reveal_strlit("tools");
    reveal_strlit("max_tokens");
    reveal_strlit("stream");
    reveal_strlit("role");
    reveal_strlit("content");
    reveal_strlit("name");
    reveal_strlit("description");
    reveal_strlit("input_schema");
    assert("model"@.len() == 5 && "system"@.len() == 6 && "messages"@.len() == 8 && "tools"@.len()
        == 5 && "max_tokens"@.len() == 10 && "stream"@.len() == 6 && "role"@.len() == 4
        && "content"@.len() == 7 && "name"@.len() == 4 && "description"@.len() == 11
        && "input_schema"@.len() == 12);
    assert("model"@[0] == 'm' && "tools"@[0] == 't');
    assert("system"@[1] == 'y' && "stream"@[1] == 't');
}

/// A provider of which nothing was set takes three retries and five minutes at most, and answers of
/// up to 8192 tokens.
pub proof fn law_fresh_providers_wait_five_minutes(provider: AnthropicProvider)
    requires
        provider.is_fresh(),
    ensures
        provider.retry.max_retries == 3,
        provider.retry.base_delay_ms == 500,
        provider.max_tokens == 8_192,
        providers::duration_nanos(provider.request_timeout) == 300_000_000_000,
{
}

} // verus!
