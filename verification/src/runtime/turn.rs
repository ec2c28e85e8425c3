//! An agent's session, as the decisions its worker makes: starting, taking
//! the user's messages, building each request, and what every reply and
//! every batch of tool results does to the conversation. Sending requests
//! and running tools is the worker's part; it hands what came back to these
//! functions and does what they say next.

use vstd::prelude::*;
use vstd::string::*;

use crate::openrouter::types::{
    messages_view, ChatCompletionRequest, ChatCompletionResponse, Message, MessageView, ToolCall,
};
use crate::runtime::agent::{state_started, AgentDefinition, AgentDefinitionView, AgentState, AgentStateView};
use crate::runtime::agent_config::{files_of, first_missing, full_slug, AGENT_CONFIG_FILE_NAME};
use crate::runtime::helpers::{classify, turn_of, Turn, TurnView};
use crate::runtime::runtime::{config_failure, RuntimeError, RuntimeErrorView};
use crate::runtime::tool_registry::{agent_tool_names, definition_names, AgentTools, ToolResult};
use crate::text::{all_space, decimal, decimal_string, is_blank, joined, strings_view, trim, trimmed};
use crate::tools::tool::Tool;

verus! {

/// What the worker does next.
#[derive(Debug, Clone, Copy, PartialEq, Eq, Structural)]
pub enum Step {
    /// Send the next request of the conversation.
    Request,
    /// Nothing to send: wait for the user.
    Wait,
}

/// How far the turn in flight has got: the requests it has made.
#[derive(Debug, Clone, Copy)]
pub struct TurnProgress {
    pub requests: u32,
}

impl TurnProgress {
    /// A turn that has made no request yet.
    pub fn new() -> (p: TurnProgress)
        ensures
            p.requests == 0,
    {
        TurnProgress { requests: 0 }
    }
}

/// Why an agent can not be started, if it can not: it has started already,
/// its `config.json` could not be used, or a required file is missing.
pub open spec fn start_problem(d: AgentDefinitionView) -> Option<RuntimeErrorView> {
    if state_started(d.state) {
        Some(RuntimeErrorView::AgentAlreadyStarted(d.id))
    } else {
        match d.config_error {
            Some(e) => Some(config_failure(e)),
            None => match d.config_files {
                None => Some(RuntimeErrorView::ConfigFileMissing(AGENT_CONFIG_FILE_NAME@)),
                Some(f) => match first_missing(files_of(f), 0) {
                    Some(m) => Some(RuntimeErrorView::ConfigFileMissing(m.name)),
                    None => None,
                },
            },
        }
    }
}

/// The turn goes on if the user sent anything while it was in flight, which
/// then joins the conversation; otherwise the agent waits for the user.
pub open spec fn settled(d: AgentDefinitionView) -> (AgentDefinitionView, Step) {
    if d.queued.len() > 0 {
        (
            AgentDefinitionView {
                messages: d.messages + d.queued,
                queued: Seq::empty(),
                state: AgentStateView::Working,
                ..d
            },
            Step::Request,
        )
    } else {
        (AgentDefinitionView { state: AgentStateView::Idle, ..d }, Step::Wait)
    }
}

/// A started agent: its system prompt set and, when its `DIRECTIVE.md` says
/// anything, that as the opening turn, sent as written bar the whitespace
/// around it.
pub open spec fn started_with(
    d: AgentDefinitionView,
    system_prompt: Seq<char>,
    directive: Option<Seq<char>>,
) -> (AgentDefinitionView, Step) {
    let d1 = AgentDefinitionView { system_prompt, ..d };
    match directive {
        Some(t) if !all_space(t) => (
            AgentDefinitionView {
                messages: d1.messages.push(MessageView::User { content: trimmed(t) })
                    + d1.queued,
                queued: Seq::empty(),
                opened_with_directive: d1.opened_with_directive || d1.messages.len() == 0,
                state: AgentStateView::Working,
                ..d1
            },
            Step::Request,
        ),
        _ => settled(d1),
    }
}

/// What the text of a turn that ran out of requests says.
pub open spec fn gave_up_text(max: nat) -> Seq<char> {
    "gave up after "@ + decimal(max) + " iterations without finishing the turn"@
}

/// The system prompt an agent's files make: the shared guidelines and the
/// agent's own purpose, each without the whitespace around it, the blank ones
/// left out, a blank line between them.
pub open spec fn nonblank_trimmed(parts: Seq<Seq<char>>) -> Seq<Seq<char>>
    decreases parts.len(),
{
    if parts.len() == 0 {
        parts
    } else {
        let r = nonblank_trimmed(parts.drop_last());
        if all_space(parts.last()) {
            r
        } else {
            r.push(trimmed(parts.last()))
        }
    }
}

pub open spec fn system_prompt_text(parts: Seq<Seq<char>>) -> Seq<char> {
    joined(nonblank_trimmed(parts), "\n\n"@)
}

/// Builds the system prompt from the texts of `SYSTEM.md` and `AGENTS.md`,
/// in that order.
pub fn compose_system_prompt(parts: &Vec<String>) -> (r: String)
    ensures
        r@ == system_prompt_text(strings_view(parts@)),
{
    let ghost ps = strings_view(parts@);
    let mut kept: Vec<String> = Vec::new();
    for i in 0..parts.len()
        invariant
            ps == strings_view(parts@),
            strings_view(kept@) == nonblank_trimmed(ps.take(i as int)),
    {
        assert(ps.take(i + 1).drop_last() =~= ps.take(i as int));
        if !is_blank(parts[i].as_str()) {
            let ghost before = kept@;
            let t = trim(parts[i].as_str());
            kept.push(t);
            assert(strings_view(kept@) =~= strings_view(before).push(trimmed(ps[i as int])));
        }
    }
    assert(ps.take(parts@.len() as int) =~= ps);
    crate::text::join(&kept, "\n\n")
}

/// Ends the turn, or carries it on with what was queued.
fn settle(d: &mut AgentDefinition) -> (s: Step)
    ensures
        (final(d)@, s) == settled(old(d)@),
{
    if d.queued_messages().len() > 0 {
        d.take_queued_messages();
        d.set_state(AgentState::Working);
        Step::Request
    } else {
        d.set_state(AgentState::Idle);
        Step::Wait
    }
}

/// Starts the agent. With a directive it begins working straight away;
/// without one it waits for the user, unless the user already said something.
/// Refused while the agent cannot run, and once it has started.
pub fn start_session(
    d: &mut AgentDefinition,
    system_prompt: String,
    directive: Option<String>,
) -> (r: Result<Step, RuntimeError>)
    ensures
        match start_problem(old(d)@) {
            Some(e) => r matches Err(x) && x@ == e && final(d)@ == old(d)@,
            None => r matches Ok(s) && (final(d)@, s) == started_with(
                old(d)@,
                system_prompt@,
                match directive {
                    Some(t) => Some(t@),
                    None => None,
                },
            ),
        },
{
    if d.state().started() {
        return Err(RuntimeError::AgentAlreadyStarted(d.id()));
    }
    match d.config_error() {
        Some(e) => {
            return Err(RuntimeError::from_config_files_error(e));
        },
        None => {},
    }
    match d.config_files() {
        None => {
            return Err(RuntimeError::ConfigFileMissing(AGENT_CONFIG_FILE_NAME.to_owned()));
        },
        Some(files) => match files.missing_file() {
            Some(m) => {
                return Err(RuntimeError::ConfigFileMissing(m.name()));
            },
            None => {},
        },
    }
    d.set_system_prompt(system_prompt);
    match directive {
        Some(t) => {
            if !is_blank(t.as_str()) {
                let text = trim(t.as_str());
                d.push_directive(text.as_str());
                d.take_queued_messages();
                d.set_state(AgentState::Working);
                return Ok(Step::Request);
            }
        },
        None => {},
    }
    Ok(settle(d))
}

/// What handing the user's message over does: while a turn is in flight, or
/// before the agent has started, it waits its turn; otherwise it opens the
/// next one, behind anything still waiting from before, in the order it was
/// all sent.
pub open spec fn message_sent(d: AgentDefinitionView, content: Seq<char>) -> (
    AgentDefinitionView,
    Step,
) {
    match d.state {
        AgentStateView::Working | AgentStateView::Configuring => (
            AgentDefinitionView { queued: d.queued.push(MessageView::User { content }), ..d },
            Step::Wait,
        ),
        _ => (
            AgentDefinitionView {
                messages: (d.messages + d.queued).push(MessageView::User { content }),
                queued: Seq::empty(),
                state: AgentStateView::Working,
                ..d
            },
            Step::Request,
        ),
    }
}

/// Hands the user's message to the agent.
pub fn send_message(d: &mut AgentDefinition, content: &str) -> (s: Step)
    ensures
        (final(d)@, s) == message_sent(old(d)@, content@),
{
    let state = d.state();
    match state {
        AgentState::Working | AgentState::Configuring => {
            d.queue_message(Message::user(content));
            Step::Wait
        },
        _ => {
            d.take_queued_messages();
            d.push_message(Message::user(content));
            d.set_state(AgentState::Working);
            Step::Request
        },
    }
}

/// The request the conversation comes to: the agent's model, its system
/// prompt and conversation, and the tools it may call. Counts as one of the
/// turn's requests.
pub fn next_request<T: Tool>(
    d: &AgentDefinition,
    tools: &AgentTools<T>,
    progress: &mut TurnProgress,
) -> (r: ChatCompletionRequest)
    ensures
        r.model@ == full_slug(d@.config.model),
        messages_view(r.messages@) == crate::runtime::agent::request_messages_of(d@),
        r.tools matches Some(t) && definition_names(t@) == agent_tool_names(tools.entries()),
        r.tool_choice is None,
        r.temperature is None,
        r.max_tokens is None,
        r.stop is None,
        final(progress).requests == if old(progress).requests < u32::MAX {
            old(progress).requests + 1
        } else {
            old(progress).requests as int
        },
{
    let model = d.config().model().full_slug();
    let messages = d.request_messages();
    let definitions = tools.definitions();
    if progress.requests < u32::MAX {
        progress.requests = progress.requests + 1;
    }
    ChatCompletionRequest::new(model.as_str(), messages).set_tools(definitions)
}

/// What a reply leaves the worker to do.
#[derive(Debug)]
pub enum Reply {
    /// Run these tool calls, in order, and hand back their results.
    RunTools(Vec<ToolCall>),
    /// Go on as the step says.
    Next(Step),
}

/// The tool calls a message asks for, if it is the assistant's.
pub open spec fn calls_of(m: MessageView) -> Seq<crate::openrouter::types::ToolCallView> {
    match m {
        MessageView::Assistant { tool_calls, .. } => tool_calls,
        _ => Seq::empty(),
    }
}

/// Takes the model's reply into the conversation. Tool calls go back to the
/// worker to run; a finished reply ends the turn, or starts the next one with
/// what the user queued, counting its requests afresh; any other reply fails
/// the agent with its reason.
pub fn record_reply(
    d: &mut AgentDefinition,
    progress: &mut TurnProgress,
    response: ChatCompletionResponse,
) -> (r: Reply)
    ensures
        final(progress).requests == (if r == Reply::Next(Step::Request) {
            0
        } else {
            old(progress).requests
        }),
        response.choices@.len() == 0 ==> r == Reply::Next(Step::Wait) && final(d)@ == (
        AgentDefinitionView {
            state: AgentStateView::Failed("the response contained no choices"@),
            ..old(d)@
        }),
        response.choices@.len() > 0 ==> {
            let choice = response.choices@[0];
            let d1 = AgentDefinitionView {
                messages: old(d)@.messages.push(choice.message@),
                usage: match response.usage {
                    Some(u) => Some(u),
                    None => old(d)@.usage,
                },
                ..old(d)@
            };
            match turn_of(choice.message@, choice.finish_reason) {
                TurnView::Continue => final(d)@ == d1 && (r matches Reply::RunTools(calls)
                    && crate::openrouter::types::tool_calls_view(calls@) == calls_of(
                    choice.message@,
                )),
                TurnView::Done => (final(d)@, r) == (settled(d1).0, Reply::Next(settled(d1).1)),
                TurnView::Failed(reason) => r == Reply::Next(Step::Wait) && final(d)@ == (
                AgentDefinitionView { state: AgentStateView::Failed(reason), ..d1 }),
            }
        },
{
    let mut choices = response.choices;
    if choices.len() == 0 {
        d.set_state(AgentState::Failed("the response contained no choices".to_owned()));
        return Reply::Next(Step::Wait);
    }
    let choice = choices.remove(0);
    match response.usage {
        Some(u) => d.set_usage(u),
        None => {},
    }
    let turn = classify(&choice);
    let calls = crate::openrouter::types::duplicate_tool_calls(choice.message.tool_calls());
    d.push_message(choice.message);
    match turn {
        Turn::Continue => Reply::RunTools(calls),
        Turn::Done => {
            let step = settle(d);
            if step == Step::Request {
                progress.requests = 0;
            }
            Reply::Next(step)
        },
        Turn::Failed(reason) => {
            d.set_state(AgentState::Failed(reason));
            Reply::Next(Step::Wait)
        },
    }
}

/// The messages tool results come to, in order.
pub open spec fn result_messages(results: Seq<ToolResult>) -> Seq<MessageView> {
    results.map_values(|x: ToolResult| x.spec_message())
}

/// Whether any result ends the turn.
pub open spec fn any_ends_turn(results: Seq<ToolResult>) -> bool {
    exists|i: int| 0 <= i < results.len() && #[trigger] results[i].spec_ends_turn()
}

/// What the results of a reply's tool calls do: they join the conversation;
/// then a tool that ends the turn ends it, a turn that has made all the
/// requests it may fails, and any other goes on, with what the user queued
/// meanwhile after the results, never between a call and its answer.
pub open spec fn after_tools(d: AgentDefinitionView, requests: u32, results: Seq<ToolResult>) -> (
    AgentDefinitionView,
    Step,
) {
    let d1 = AgentDefinitionView { messages: d.messages + result_messages(results), ..d };
    if any_ends_turn(results) {
        settled(d1)
    } else if requests >= d.config.max_iterations {
        (
            AgentDefinitionView {
                state: AgentStateView::Failed(gave_up_text(d.config.max_iterations as nat)),
                ..d1
            },
            Step::Wait,
        )
    } else {
        (
            AgentDefinitionView {
                messages: d1.messages + d1.queued,
                queued: Seq::empty(),
                state: AgentStateView::Working,
                ..d1
            },
            Step::Request,
        )
    }
}

/// Takes the results of the tool calls a reply asked for into the
/// conversation, and says what comes next. A turn a tool ended and the user's
/// queued messages start again counts its requests afresh.
pub fn record_tool_results(
    d: &mut AgentDefinition,
    progress: &mut TurnProgress,
    results: Vec<ToolResult>,
) -> (s: Step)
    ensures
        (final(d)@, s) == after_tools(old(d)@, old(progress).requests, results@),
        final(progress).requests == (if any_ends_turn(results@) && s == Step::Request {
            0
        } else {
            old(progress).requests
        }),
{
    let ghost d0 = d@;
    let mut ends = false;
    let mut i: usize = 0;
    let ghost rs = results@;
    while i < results.len()
        invariant
            0 <= i <= results@.len(),
            rs == results@,
            d@ == (AgentDefinitionView {
                messages: d0.messages + result_messages(rs.take(i as int)),
                ..d0
            }),
            ends == exists|j: int| 0 <= j < i && #[trigger] rs[j].spec_ends_turn(),
        decreases results.len() - i,
    {
        let ghost before = d@;
        let m = results[i].message();
        if results[i].ends_turn() {
            ends = true;
        }
        d.push_message(m);
        assert(result_messages(rs.take(i + 1)) =~= result_messages(rs.take(i as int)).push(
            rs[i as int].spec_message(),
        ));
        i += 1;
    }
    assert(rs.take(rs.len() as int) =~= rs);
    if ends {
        let step = settle(d);
        if step == Step::Request {
            progress.requests = 0;
        }
        return step;
    }
    let max = d.config().max_iterations();
    if progress.requests >= max {
        let mut reason = "gave up after ".to_owned();
        let n = decimal_string(max as u64);
        reason.append(n.as_str());
        reason.append(" iterations without finishing the turn");
        d.set_state(AgentState::Failed(reason));
        return Step::Wait;
    }
    d.take_queued_messages();
    d.set_state(AgentState::Working);
    Step::Request
}

/// The request could not be made or came back refused: the agent fails with
/// the reason. What the user queued stays queued, shown as not yet sent.
pub fn record_failure(d: &mut AgentDefinition, reason: String)
    ensures
        final(d)@ == (AgentDefinitionView { state: AgentStateView::Failed(reason@), ..old(d)@ }),
{
    d.set_state(AgentState::Failed(reason));
}


// Laws of a session /////////////////
//////////////////////////////////////

/// A tool call's answers come right after the assistant's message that asked
/// for them: nothing the user queued meanwhile lands between them.
pub proof fn lemma_queued_messages_never_split_a_tool_call(
    d: AgentDefinitionView,
    requests: u32,
    results: Seq<ToolResult>,
)
    ensures
        ({
            let after = after_tools(d, requests, results).0.messages;
            &&& after.len() >= d.messages.len() + results.len()
            &&& after.subrange(0, d.messages.len() as int) == d.messages
            &&& after.subrange(d.messages.len() as int, (d.messages.len() + results.len()) as int)
                == result_messages(results)
        }),
{
    let d1 = AgentDefinitionView { messages: d.messages + result_messages(results), ..d };
    let after = after_tools(d, requests, results).0.messages;
    assert(d1.messages.subrange(0, d.messages.len() as int) =~= d.messages);
    assert(d1.messages.subrange(d.messages.len() as int, (d.messages.len() + results.len()) as int)
        =~= result_messages(results));
    if any_ends_turn(results) {
        if d1.queued.len() > 0 {
            assert(after.subrange(0, d.messages.len() as int) =~= d.messages);
            assert(after.subrange(d.messages.len() as int, (d.messages.len() + results.len()) as int)
                =~= result_messages(results));
        }
    } else if requests < d.config.max_iterations {
        assert(after.subrange(0, d.messages.len() as int) =~= d.messages);
        assert(after.subrange(d.messages.len() as int, (d.messages.len() + results.len()) as int)
            =~= result_messages(results));
    }
}

/// A turn that runs out of requests gives up, saying how many it was allowed,
/// and leaves what the user queued queued: it never reached the model, so it
/// is not shown as part of the conversation.
pub proof fn lemma_a_turn_out_of_requests_gives_up(
    d: AgentDefinitionView,
    requests: u32,
    results: Seq<ToolResult>,
)
    requires
        requests >= d.config.max_iterations,
        !any_ends_turn(results),
    ensures
        after_tools(d, requests, results).0.state == AgentStateView::Failed(
            gave_up_text(d.config.max_iterations as nat),
        ),
        after_tools(d, requests, results).0.queued == d.queued,
        after_tools(d, requests, results).0.messages == d.messages + result_messages(results),
        after_tools(d, requests, results).1 == Step::Wait,
{
}

/// The conversation only ever grows: no step of a session takes back or
/// rewrites anything already said.
pub proof fn lemma_the_conversation_only_grows(
    d: AgentDefinitionView,
    requests: u32,
    results: Seq<ToolResult>,
    system_prompt: Seq<char>,
    directive: Option<Seq<char>>,
)
    ensures
        d.messages.is_prefix_of(after_tools(d, requests, results).0.messages),
        d.messages.is_prefix_of(settled(d).0.messages),
        d.messages.is_prefix_of(started_with(d, system_prompt, directive).0.messages),
{
    lemma_queued_messages_never_split_a_tool_call(d, requests, results);
    let a = after_tools(d, requests, results).0.messages;
    assert(a.subrange(0, d.messages.len() as int) =~= a.take(d.messages.len() as int));
    let s = settled(d).0.messages;
    if d.queued.len() > 0 {
        assert(s.take(d.messages.len() as int) =~= d.messages);
    } else {
        assert(s.take(d.messages.len() as int) =~= d.messages);
    }
    let d1 = AgentDefinitionView { system_prompt, ..d };
    let t = started_with(d, system_prompt, directive).0.messages;
    match directive {
        Some(x) => {
            if !all_space(x) {
                assert(t.take(d.messages.len() as int) =~= d.messages);
            } else {
                assert(t == settled(d1).0.messages);
                assert(t.take(d.messages.len() as int) =~= d.messages);
            }
        },
        None => {
            assert(t == settled(d1).0.messages);
            assert(t.take(d.messages.len() as int) =~= d.messages);
        },
    }
}


/// Nothing the user sends is lost or put out of order: after a message is
/// handed over, the conversation and the queue behind it hold everything
/// they held before, then the new message.
pub proof fn lemma_a_sent_message_goes_last(d: AgentDefinitionView, content: Seq<char>)
    ensures
        message_sent(d, content).0.messages + message_sent(d, content).0.queued == (d.messages
            + d.queued).push(MessageView::User { content }),
{
    let after = message_sent(d, content).0;
    assert(after.messages + after.queued =~= (d.messages + d.queued).push(
        MessageView::User { content },
    ));
}


/// When a tool ends the turn, nothing the user sent meanwhile is left behind:
/// the results join the conversation, then whatever was queued follows them
/// and goes out at once as a turn of its own; only with nothing queued does
/// the agent wait for the user.
pub proof fn lemma_what_was_queued_goes_out_when_a_turn_ends(
    d: AgentDefinitionView,
    requests: u32,
    results: Seq<ToolResult>,
)
    requires
        any_ends_turn(results),
    ensures
        d.queued.len() > 0 ==> {
            &&& after_tools(d, requests, results).1 == Step::Request
            &&& after_tools(d, requests, results).0.state == AgentStateView::Working
            &&& after_tools(d, requests, results).0.queued.len() == 0
            &&& after_tools(d, requests, results).0.messages == d.messages + result_messages(
                results,
            ) + d.queued
        },
        d.queued.len() == 0 ==> {
            &&& after_tools(d, requests, results).1 == Step::Wait
            &&& after_tools(d, requests, results).0.state == AgentStateView::Idle
            &&& after_tools(d, requests, results).0.messages == d.messages + result_messages(
                results,
            )
        },
{
}

/// Whatever the results of a turn's tool calls, the user's queued messages
/// stay queued only when the turn gave up; otherwise none is left waiting,
/// each one having joined the conversation after the results, in order.
pub proof fn lemma_tool_results_never_strand_the_queue(
    d: AgentDefinitionView,
    requests: u32,
    results: Seq<ToolResult>,
)
    ensures
        !(after_tools(d, requests, results).0.state is Failed) ==> {
            &&& after_tools(d, requests, results).0.queued.len() == 0
            &&& after_tools(d, requests, results).0.messages == d.messages + result_messages(
                results,
            ) + d.queued
        },
{
    if !any_ends_turn(results) && requests < d.config.max_iterations {
    } else if any_ends_turn(results) && d.queued.len() == 0 {
        assert(d.messages + result_messages(results) + d.queued =~= d.messages + result_messages(results));
    }
}

} // verus!
