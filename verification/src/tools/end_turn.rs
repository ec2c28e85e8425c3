//! The tool an agent calls to say it is done.

use vstd::prelude::*;
use vstd::string::*;

use crate::json::{json_field, json_field_of, json_str, json_str_of};
use crate::text::{all_space, lemma_trimmed_empty_iff_blank, trim, trimmed};
use crate::tools::tool::{Tool, ToolContext, ToolError, ToolOutput, ToolState};

verus! {

pub const END_TURN_DESCRIPTION: &'static str = "Declare that you have finished the work you were asked to do and the turn is over. Call this once the task is complete, or once you need something from the user before you can carry on. Do not call it while you still have work left to run.";

pub const END_TURN_PARAMETERS: &'static str = "{\"type\": \"object\", \"properties\": {\"summary\": {\"type\": \"string\", \"description\": \"A short account of what you did, or of what you are waiting on.\"}}, \"required\": []}";

/// The tool an agent calls to say it is done. Ending the turn is a decision
/// the model makes, and nothing in its text can be read as making it, so it is
/// spelled out as a call. Every agent has it: it is how a turn ends, not
/// something the user grants.
#[derive(Debug, Clone, Copy)]
pub struct EndTurnTool;

impl EndTurnTool {
    pub fn new() -> (t: EndTurnTool)
        ensures
            t == EndTurnTool,
    {
        EndTurnTool
    }
}

/// What ending the turn says back: "turn ended", followed by the summary when
/// the model gave one that is not blank.
pub open spec fn end_turn_text(summary: Option<Seq<char>>) -> Seq<char> {
    match summary {
        Some(s) => if all_space(s) {
            "turn ended"@
        } else {
            "turn ended: "@ + trimmed(s)
        },
        None => "turn ended"@,
    }
}

/// The summary a call with the arguments `args` carries: its `summary`, when
/// that is a string.
pub open spec fn summary_of(args: Seq<char>) -> Option<Seq<char>> {
    match json_field_of(args, "summary"@) {
        Some(f) => json_str_of(f),
        None => None,
    }
}

/// The content of the message that ends a turn, for the summary the call
/// carried.
pub fn end_turn_content(summary: Option<String>) -> (r: String)
    ensures
        r@ == end_turn_text(
            match summary {
                Some(s) => Some(s@),
                None => None,
            },
        ),
{
    match summary {
        Some(s) => {
            let t = trim(s.as_str());
            proof {
                lemma_trimmed_empty_iff_blank(s@);
            }
            if t.as_str().is_empty() {
                "turn ended".to_owned()
            } else {
                let mut r = "turn ended: ".to_owned();
                r.append(t.as_str());
                r
            }
        },
        None => "turn ended".to_owned(),
    }
}

/// Ending a turn needs nothing kept between calls.
#[derive(Debug, Clone, Copy)]
pub struct EndTurnState;

impl ToolState for EndTurnState {
    /// The summary is optional on purpose: this tool's whole job is to stop
    /// the loop, and refusing the call over a missing argument would keep the
    /// agent running for no reason.
    fn run(&mut self, _context: &ToolContext, arguments: &str) -> (r: Result<
        ToolOutput,
        ToolError,
    >)
        ensures
            r matches Ok(o) && o.spec_ends_turn() && o.spec_content() == end_turn_text(
                summary_of(arguments@),
            ),
    {
        let summary = match json_field(arguments, "summary") {
            Some(v) => json_str(v.as_str()),
            None => None,
        };
        Ok(ToolOutput::new(end_turn_content(summary)).set_ends_turn(true))
    }

    /// Every call ends the turn, saying so with the summary it carried.
    open spec fn answers(
        &self,
        after: Self,
        dir: Seq<char>,
        config: Seq<char>,
        arguments: Seq<char>,
        r: Result<ToolOutput, ToolError>,
    ) -> bool {
        r matches Ok(o) && o.spec_ends_turn() && o.spec_content() == end_turn_text(
            summary_of(arguments),
        )
    }
}

impl Tool for EndTurnTool {
    type State = EndTurnState;

    fn name(&self) -> (r: String)
        ensures
            r@ == "end_turn"@,
    {
        "end_turn".to_owned()
    }

    fn description(&self) -> (r: String)
        ensures
            r@ == END_TURN_DESCRIPTION@,
    {
        END_TURN_DESCRIPTION.to_owned()
    }

    fn parameters(&self) -> (r: String)
        ensures
            r@ == END_TURN_PARAMETERS@,
    {
        END_TURN_PARAMETERS.to_owned()
    }

    fn always_enabled(&self) -> (r: bool)
        ensures
            r,
    {
        true
    }

    fn validate_config(&self, _config: &str) -> (r: Result<(), String>)
        ensures
            r is Ok,
    {
        Ok(())
    }

    open spec fn gives_name(&self, name: Seq<char>) -> bool {
        name == "end_turn"@
    }

    open spec fn gives_description(&self, description: Seq<char>) -> bool {
        description == END_TURN_DESCRIPTION@
    }

    open spec fn gives_parameters(&self, parameters: Seq<char>) -> bool {
        parameters == END_TURN_PARAMETERS@
    }

    /// Every agent has it: it is how a turn ends.
    open spec fn gives_always_enabled(&self, on: bool) -> bool {
        on
    }

    /// It reads no settings, so it takes any block.
    open spec fn config_verdict(&self, config: Seq<char>, r: Result<(), String>) -> bool {
        r is Ok
    }

    fn new_state(&self, _context: &ToolContext) -> (r: Result<EndTurnState, ToolError>)
        ensures
            r is Ok,
    {
        Ok(EndTurnState)
    }

    /// Starting it never fails.
    open spec fn starts(&self, dir: Seq<char>, config: Seq<char>, r: Result<EndTurnState, ToolError>) -> bool {
        r is Ok
    }
}

} // verus!
