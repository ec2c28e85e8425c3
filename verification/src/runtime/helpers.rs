//! How a reply from the model moves a turn along.

use vstd::prelude::*;

use crate::openrouter::types::{Choice, FinishReason, MessageView};

verus! {

/// What a reply means for the turn it answers.
#[derive(Debug, Clone, PartialEq, Eq)]
pub enum Turn {
    /// The model asked for tools; their results go back in the next request.
    Continue,
    /// The model has answered and the turn is over.
    Done,
    /// The turn cannot go on, for the reason given.
    Failed(String),
}

pub enum TurnView {
    Continue,
    Done,
    Failed(Seq<char>),
}

impl View for Turn {
    type V = TurnView;

    open spec fn view(&self) -> TurnView {
        match self {
            Turn::Continue => TurnView::Continue,
            Turn::Done => TurnView::Done,
            Turn::Failed(reason) => TurnView::Failed(reason@),
        }
    }
}

/// Whether a message asks for at least one tool call.
pub open spec fn asks_for_tools(m: MessageView) -> bool {
    m matches MessageView::Assistant { tool_calls, .. } && tool_calls.len() > 0
}

/// The turn a reply comes to: tool calls carry it on whatever the finish
/// reason says; otherwise a stop (or no reason at all) ends it, and every
/// other reason fails it.
pub open spec fn turn_of(m: MessageView, finish: Option<FinishReason>) -> TurnView {
    if asks_for_tools(m) {
        TurnView::Continue
    } else {
        match finish {
            None => TurnView::Done,
            Some(FinishReason::Stop) => TurnView::Done,
            // the model said it wanted tools and then sent none; sending the
            // same conversation back would only get the same answer
            Some(FinishReason::ToolCalls) => TurnView::Failed(
                "the model asked for tool calls but sent none"@,
            ),
            Some(FinishReason::Length) => TurnView::Failed("response was truncated"@),
            Some(FinishReason::ContentFilter) => TurnView::Failed("stopped by content filter"@),
            Some(FinishReason::Other) => TurnView::Failed("stopped for an unknown reason"@),
        }
    }
}

/// Classifies the reply to a request.
pub fn classify(choice: &Choice) -> (r: Turn)
    ensures
        r@ == turn_of(choice.message@, choice.finish_reason),
{
    if choice.message.tool_calls().len() > 0 {
        return Turn::Continue;
    }
    match choice.finish_reason {
        None => Turn::Done,
        Some(FinishReason::Stop) => Turn::Done,
        Some(FinishReason::ToolCalls) => Turn::Failed(
            "the model asked for tool calls but sent none".to_owned(),
        ),
        Some(FinishReason::Length) => Turn::Failed("response was truncated".to_owned()),
        Some(FinishReason::ContentFilter) => Turn::Failed("stopped by content filter".to_owned()),
        Some(FinishReason::Other) => Turn::Failed("stopped for an unknown reason".to_owned()),
    }
}

} // verus!
