//! What can go wrong in a run.
use vstd::prelude::*;

use crate::text;
use crate::text::{cat2, cat4, cat5, decimal};

verus! {

/// Why a run, a tool or a store failed.
#[derive(Debug, PartialEq, Eq)]
pub enum AgentError {
    Provider(String),
    Tool { tool: String, message: String },
    MaxTurns(usize),
    Session(String),
    Cancelled,
    TokenBudget { limit: u64, used: u64 },
}

/// What an error says.
#[verifier::ext_equal]
pub enum ErrorV {
    Provider(Seq<char>),
    Tool { tool: Seq<char>, message: Seq<char> },
    MaxTurns(usize),
    Session(Seq<char>),
    Cancelled,
    TokenBudget { limit: u64, used: u64 },
}

impl View for AgentError {
    type V = ErrorV;

    open spec fn view(&self) -> ErrorV {
        match *self {
            AgentError::Provider(message) => ErrorV::Provider(message@),
            AgentError::Tool { tool, message } => ErrorV::Tool { tool: tool@, message: message@ },
            AgentError::MaxTurns(turns) => ErrorV::MaxTurns(turns),
            AgentError::Session(message) => ErrorV::Session(message@),
            AgentError::Cancelled => ErrorV::Cancelled,
            AgentError::TokenBudget { limit, used } => ErrorV::TokenBudget { limit, used },
        }
    }
}

/// The message that an error shows.
pub open spec fn error_text(error: ErrorV) -> Seq<char> {
    match error {
        ErrorV::Provider(message) => "provider failed: "@ + message,
        ErrorV::Tool { tool, message } => "tool "@ + tool + " failed: "@ + message,
        ErrorV::MaxTurns(turns) => "agent exceeded "@ + text::decimal_text(turns as nat)
            + " turns"@,
        ErrorV::Session(message) => "session persistence failed: "@ + message,
        ErrorV::Cancelled => "agent run cancelled"@,
        ErrorV::TokenBudget { limit, used } => "agent exceeded token budget of "@
            + text::decimal_text(limit as nat) + " tokens (used "@ + text::decimal_text(
            used as nat,
        ) + ")"@,
    }
}

impl AgentError {
    /// The message that this error shows.
    pub fn describe(&self) -> (message: String)
        ensures
            message@ == error_text(self@),
    {
        match self {
            AgentError::Provider(message) => cat2("provider failed: ", message.as_str()),
            AgentError::Tool { tool, message } => cat4(
                "tool ",
                tool.as_str(),
                " failed: ",
                message.as_str(),
            ),
            AgentError::MaxTurns(turns) => text::cat3(
                "agent exceeded ",
                decimal(*turns as u128).as_str(),
                " turns",
            ),
            AgentError::Session(message) => cat2("session persistence failed: ", message.as_str()),
            AgentError::Cancelled => "agent run cancelled".to_owned(),
            AgentError::TokenBudget { limit, used } => cat5(
                "agent exceeded token budget of ",
                decimal(*limit as u128).as_str(),
                " tokens (used ",
                decimal(*used as u128).as_str(),
                ")",
            ),
        }
    }
}

/// What a result says whose error is an agent's.
pub open spec fn text_result(result: Result<String, AgentError>) -> Result<Seq<char>, ErrorV> {
    match result {
        Ok(text) => Ok(text@),
        Err(error) => Err(error@),
    }
}

/// What a result without a value says.
pub open spec fn unit_result(result: Result<(), AgentError>) -> Result<(), ErrorV> {
    match result {
        Ok(()) => Ok(()),
        Err(error) => Err(error@),
    }
}

/// The error of a provider.
pub fn provider_error(message: String) -> (error: AgentError)
    ensures
        error@ == ErrorV::Provider(message@),
{
    AgentError::Provider(message)
}

/// The error of a tool.
pub fn tool_error(tool: &str, message: String) -> (error: AgentError)
    ensures
        error@ == (ErrorV::Tool { tool: tool@, message: message@ }),
{
    AgentError::Tool { tool: tool.to_owned(), message }
}

/// An error shows all that it knows: what a message says stands at its end, the tool that failed is
/// named in front of it, and limits are shown as numbers.
pub proof fn law_errors_show_what_they_know(
    message: Seq<char>,
    tool: Seq<char>,
    turns: usize,
    limit: u64,
    used: u64,
)
    ensures
        message.is_suffix_of(error_text(ErrorV::Provider(message))),
        message.is_suffix_of(error_text(ErrorV::Session(message))),
        message.is_suffix_of(error_text(ErrorV::Tool { tool, message })),
        ("tool "@ + tool + " failed: "@).is_prefix_of(
            error_text(ErrorV::Tool { tool, message }),
        ),
        ("agent exceeded "@ + text::decimal_text(turns as nat)).is_prefix_of(
            error_text(ErrorV::MaxTurns(turns)),
        ),
        ("agent exceeded token budget of "@ + text::decimal_text(limit as nat)).is_prefix_of(
            error_text(ErrorV::TokenBudget { limit, used }),
        ),
        ("(used "@ + text::decimal_text(used as nat) + ")"@).is_suffix_of(
            error_text(ErrorV::TokenBudget { limit, used }),
        ),
{
    let failed = "tool "@ + tool + " failed: "@;
    let shown = error_text(ErrorV::Tool { tool, message });
    assert(shown == failed + message);
    assert(failed == shown.take(failed.len() as int));
    assert(message == shown.subrange(shown.len() - message.len(), shown.len() as int));
    let said = error_text(ErrorV::Provider(message));
    assert(message == said.subrange(said.len() - message.len(), said.len() as int));
    let kept = error_text(ErrorV::Session(message));
    assert(message == kept.subrange(kept.len() - message.len(), kept.len() as int));
    let turned = error_text(ErrorV::MaxTurns(turns));
    let front = "agent exceeded "@ + text::decimal_text(turns as nat);
    assert(turned == front + " turns"@);
    assert(front == turned.take(front.len() as int));
    let budget = error_text(ErrorV::TokenBudget { limit, used });
    let first = "agent exceeded token budget of "@ + text::decimal_text(limit as nat);
    let middle = " tokens (used "@ + text::decimal_text(used as nat) + ")"@;
    assert(budget == first + middle);
    assert(first == budget.take(first.len() as int));
    reveal_strlit(" tokens (used ");
    reveal_strlit("(used ");
    reveal_strlit(" tokens ");
    assert(" tokens (used "@ == " tokens "@ + "(used "@);
    let last = "(used "@ + text::decimal_text(used as nat) + ")"@;
    assert(middle == " tokens "@ + last);
    assert(last == budget.subrange(budget.len() - last.len(), budget.len() as int));
}

} // verus!
