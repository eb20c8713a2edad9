//! Events of the upstream's response stream.

use crate::tool_json::{ToolUseEvent, ToolUseV};
use vstd::prelude::*;

verus! {

/// What a piece of reasoning is.
pub struct ReasoningV {
    pub text: Seq<char>,
    pub redacted: Option<Seq<char>>,
}

/// What an upstream event is, as far as the stream to the client goes by it.
pub enum EventV {
    /// A piece of the answer, be it prose or code.
    Content(Seq<char>),
    ToolUse(ToolUseV),
    Reasoning(ReasoningV),
    ContextUsage { input_tokens: int, exhausted: bool },
    Exception(Seq<char>),
    /// Anything that changes nothing.
    Other,
}

/// A piece of reasoning that the upstream discloses, or holds back as an opaque text.
#[derive(Debug)]
pub struct ReasoningContentEvent {
    pub text: String,
    pub signature: Option<String>,
    pub redacted_content: Option<String>,
}

/// An upstream event.
#[derive(Debug)]
pub enum Event {
    AssistantResponse { content: String },
    Code { content: String },
    ToolUse(ToolUseEvent),
    ReasoningContent(ReasoningContentEvent),
    /// How full the context window is: the tokens in it, and whether it is used up.
    ContextUsage { input_tokens: i32, exhausted: bool },
    Metering,
    Error { error_code: String, error_message: String },
    Exception { exception_type: String, message: String },
    Unknown,
}

impl ReasoningContentEvent {
    pub open spec fn view(&self) -> ReasoningV {
        ReasoningV {
            text: self.text@,
            redacted: match self.redacted_content {
                Some(s) => Some(s@),
                None => None,
            },
        }
    }
}

impl Event {
    pub open spec fn view(&self) -> EventV {
        match self {
            Event::AssistantResponse { content } => EventV::Content(content@),
            Event::Code { content } => EventV::Content(content@),
            Event::ToolUse(tool_use) => EventV::ToolUse(tool_use.view()),
            Event::ReasoningContent(reasoning) => EventV::Reasoning(reasoning.view()),
            Event::ContextUsage { input_tokens, exhausted } => EventV::ContextUsage {
                input_tokens: *input_tokens as int,
                exhausted: *exhausted,
            },
            Event::Exception { exception_type, .. } => EventV::Exception(exception_type@),
            _ => EventV::Other,
        }
    }
}

} // verus!
